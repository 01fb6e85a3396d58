//! The text-extraction engine boundary.
//!
//! The engine itself — decoding a raster image and recognizing its text — is
//! an external service with machine-learned behaviour; nothing exact can be
//! promised about what text an image yields. `OcrClient` models that
//! boundary: the outcome of each upcoming extraction, as the embedding
//! application or a test scripts it. What the pipeline does with an outcome
//! — assembling recognized lines into one document — is verified here.

use vstd::prelude::*;

use crate::error::StoreFault;
use crate::hex::push_char;

verus! {

/// The document text assembled from recognized lines: each non-empty line,
/// in order, with a newline appended.
pub open spec fn spec_joined_lines(lines: Seq<Seq<char>>) -> Seq<char>
    decreases lines.len(),
{
    if lines.len() == 0 {
        Seq::<char>::empty()
    } else {
        spec_joined_lines(lines.drop_last()) + if lines.last().len() > 0 {
            lines.last() + seq!['\n']
        } else {
            Seq::<char>::empty()
        }
    }
}

/// The model of the external text-extraction engine: the outcome the engine
/// will report for each upcoming extraction, in order. `None` stands for a
/// failed extraction; an exhausted queue also fails.
pub struct OcrClient {
    pub outcomes: Vec<Option<String>>,
}

impl OcrClient {
    /// A fresh engine with no scripted outcomes: every extraction fails
    /// until outcomes are supplied.
    pub fn new() -> (c: OcrClient)
        ensures
            c.outcomes@ == Seq::<Option<String>>::empty(),
    {
        OcrClient { outcomes: Vec::new() }
    }

    /// Runs the engine over one raster image and reports the recognized
    /// text: the next scripted outcome, whatever the bytes hold.
    pub fn image_to_text(&mut self, buf: &Vec<u8>) -> (r: Result<String, StoreFault>)
        ensures
            old(self).outcomes@.len() == 0 ==> r == Err::<String, StoreFault>(
                StoreFault::ExtractionFailed,
            ) && final(self).outcomes@ == old(self).outcomes@,
            old(self).outcomes@.len() > 0 ==> final(self).outcomes@ == old(
                self,
            ).outcomes@.drop_first() && r == match old(self).outcomes@[0] {
                Some(t) => Ok::<String, StoreFault>(t),
                None => Err::<String, StoreFault>(StoreFault::ExtractionFailed),
            },
    {
        if self.outcomes.len() == 0 {
            return Err(StoreFault::ExtractionFailed);
        }
        let head = self.outcomes.remove(0);
        match head {
            Some(t) => Ok(t),
            None => Err(StoreFault::ExtractionFailed),
        }
    }
}

/// Assembles recognized lines into one indexable document: every non-empty
/// line followed by a newline, empty lines dropped.
pub fn join_text_lines(lines: &Vec<String>) -> (r: String)
    ensures
        r@ == spec_joined_lines(lines@.map_values(|l: String| l@)),
{
    let mut r = String::new();
    let n = lines.len();
    let mut i: usize = 0;
    while i < n
        invariant
            i <= n,
            n == lines@.len(),
            r@ == spec_joined_lines(lines@.take(i as int).map_values(|l: String| l@)),
        decreases n - i,
    {
        let line = &lines[i];
        if line.as_str().unicode_len() > 0 {
            r.append(line.as_str());
            push_char(&mut r, '\n');
        }
        i = i + 1;
        proof {
            let f = |l: String| l@;
            let cur = lines@.take(i as int).map_values(f);
            assert(cur.drop_last() =~= lines@.take(i - 1).map_values(f));
            assert(cur.last() == lines@[i - 1]@);
            assert(r@ =~= spec_joined_lines(cur));
        }
    }
    proof {
        assert(lines@.take(n as int).map_values(|l: String| l@) =~= lines@.map_values(
            |l: String| l@,
        ));
    }
    r
}

} // verus!
