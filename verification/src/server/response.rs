//! The answers of a client in a challenge-response authentication.
use crate::be32::{be32_value, law_be32_value_of_be32};
use crate::buffer::{position_after, read_string, readable_at, string_at};
use crate::wire::ssh_string;
use vstd::prelude::*;

verus! {

/// A client's response in a challenge-response authentication.
#[derive(Debug)]
pub struct Response<'a> {
    /// The message that holds the answers.
    pub s: &'a [u8],
    /// Where the next answer begins.
    pub position: usize,
    /// How many answers there may still be.
    pub n: u32,
}

impl<'a> Response<'a> {
    /// The next answer. There is none once as many were asked for as the client
    /// announced, nor where the message is too short for it.
    pub fn next(&mut self) -> (answer: Option<&'a [u8]>)
        requires
            old(self).n > 0 ==> readable_at(old(self).s@, old(self).position as int),
        ensures
            final(self).s == old(self).s,
            if old(self).n == 0 {
                &&& answer is None
                &&& final(self).n == 0
                &&& final(self).position == old(self).position
            } else {
                &&& final(self).n == old(self).n - 1
                &&& final(self).position == position_after(
                    old(self).s@,
                    old(self).position as int,
                )
                &&& match answer {
                    Some(string) => string_at(old(self).s@, old(self).position as int) == Some(
                        string@,
                    ),
                    None => string_at(old(self).s@, old(self).position as int) is None,
                }
            },
    {
        if self.n == 0 {
            None
        } else {
            self.n = self.n - 1;
            let (string, position) = read_string(self.s, self.position);
            self.position = position;
            string
        }
    }
}

/// A string that was written into a message is read back from where it begins,
/// and the next one is looked for behind it.
pub proof fn law_string_read_back(before: Seq<u8>, string: Seq<u8>, after: Seq<u8>)
    requires
        string.len() < crate::be32::two32(),
    ensures
        string_at(before + ssh_string(string) + after, before.len() as int) == Some(string),
        position_after(before + ssh_string(string) + after, before.len() as int) == (before
            + ssh_string(string)).len(),
{
    let s = before + ssh_string(string) + after;
    crate::be32::lemma_be32_len(string.len() as int);
    law_be32_value_of_be32(string.len() as int, string + after);
    assert(s.skip(before.len() as int) =~= crate::be32::be32(string.len() as int) + (string
        + after));
    let start = before.len() as int + 4;
    assert(s.subrange(start, start + string.len()) =~= string);
}

} // verus!
