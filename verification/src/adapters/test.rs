//! A transport-free adapter that emits a numbered log record every fifth
//! poll: a stand-in endpoint for exercising the poll loop and display.

use vstd::prelude::*;

use crate::adapters::common::{log_line_model, Adapter, Line};
use crate::text::{spec_decimal, u64_to_string};

verus! {

/// Counts polls; every fifth one yields a single log record holding the count.
#[derive(Debug, Default)]
pub struct TestAdapter {
    iter: u64,
}

impl View for TestAdapter {
    type V = nat;

    closed spec fn view(&self) -> nat {
        self.iter as nat
    }
}

impl Adapter for TestAdapter {
    fn get_lines(&mut self) -> (r: Option<Vec<Line>>)
        ensures
            final(self)@ == (if old(self)@ == u64::MAX {
                0nat
            } else {
                old(self)@ + 1
            }),
            match r {
                Some(lines) => final(self)@ % 5 == 0 && lines@.len() == 1 && lines@[0]@
                    == log_line_model(spec_decimal(final(self)@)),
                None => final(self)@ % 5 != 0,
            },
    {
        if self.iter == u64::MAX {
            self.iter = 0;
        } else {
            self.iter = self.iter + 1;
        }
        if self.iter % 5 == 0 {
            let mut v: Vec<Line> = Vec::new();
            v.push(Line::new_log(u64_to_string(self.iter)));
            Some(v)
        } else {
            None
        }
    }
}

} // verus!
