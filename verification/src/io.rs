//! The console prompt state.  Reading and writing the console itself is
//! host work; the library only holds the prompt text and composes lines.
use vstd::prelude::*;

verus! {

/// The console prompt configuration.
#[derive(Debug)]
pub struct UserIO {
    pub prefix: String,
}

impl UserIO {
    pub fn new() -> (r: Self)
        ensures
            r.prefix@ == "user> "@,
    {
        UserIO { prefix: "user> ".to_owned() }
    }

    pub fn set_prefix(&mut self, prefix: String)
        ensures
            final(self).prefix@ == prefix@,
    {
        self.prefix = prefix;
    }

    /// The current prompt text.
    pub fn prefix(&self) -> (r: &String)
        ensures
            r@ == self.prefix@,
    {
        &self.prefix
    }

    /// A line with the prompt text in front of it.
    pub fn line_with_prefix(&self, line: &String) -> (r: String)
        ensures
            r@ == self.prefix@ + line@,
    {
        let mut out: Vec<char> = crate::text::string_to_chars(self.prefix.as_str());
        let lc = crate::text::string_to_chars(line.as_str());
        let mut i: usize = 0;
        proof {
            assert(out@ =~= self.prefix@ + lc@.subrange(0, 0));
        }
        while i < lc.len()
            invariant
                i <= lc@.len(),
                lc@ == line@,
                out@ == self.prefix@ + lc@.subrange(0, i as int),
            decreases lc@.len() - i,
        {
            out.push(lc[i]);
            i += 1;
            proof {
                assert(out@ =~= self.prefix@ + lc@.subrange(0, i as int));
            }
        }
        proof {
            assert(out@ =~= self.prefix@ + line@);
        }
        crate::text::chars_to_string(&out)
    }
}

} // verus!
