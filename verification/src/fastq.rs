//! Sequencing-read records: a cursor over the four-line records of a read
//! file, with validation and read-identifier extraction.

use vstd::prelude::*;

use crate::text::{is_ws, is_ws_char, lines_view};

verus! {

/// A malformed read record, cited by the 1-based number of the offending
/// line.
#[derive(Debug, Clone, Copy, PartialEq, Eq, Structural)]
pub enum FastqError {
    /// The header line does not start with `@`; cites the header line.
    BadHeader { line: usize },
    /// The record is cut short by the end of the input; cites the line
    /// just past the input's last line.
    Incomplete { line: usize },
    /// The separator line does not start with `+`; cites the separator
    /// line.
    BadSeparator { line: usize },
    /// Sequence and quality lines have different lengths; cites the
    /// quality line.
    LengthMismatch { line: usize },
}

/// A cursor over the lines of a read file, holding the current record's
/// header, sequence and quality lines (without their newlines).
#[derive(Debug)]
pub struct FastqFile {
    pub lines: Vec<String>,
    pub pos: usize,
    pub hdr: String,
    pub seq: String,
    pub qual: String,
}

/// What one step of the cursor yields starting at line index `i`: the
/// header, sequence and quality lines of the record and the next index,
/// `None` at the end of the input, or the validation error.
pub open spec fn fastq_next_spec(lines: Seq<Seq<char>>, i: int) -> Result<
    Option<(Seq<char>, Seq<char>, Seq<char>, int)>,
    FastqError,
> {
    if i >= lines.len() {
        Ok(None)
    } else if lines[i].len() == 0 || lines[i][0] != '@' {
        Err(FastqError::BadHeader { line: (i + 1) as usize })
    } else if lines.len() - i < 4 {
        Err(FastqError::Incomplete { line: (lines.len() + 1) as usize })
    } else if lines[i + 2].len() == 0 || lines[i + 2][0] != '+' {
        Err(FastqError::BadSeparator { line: (i + 3) as usize })
    } else if lines[i + 1].len() != lines[i + 3].len() {
        Err(FastqError::LengthMismatch { line: (i + 4) as usize })
    } else {
        Ok(Some((lines[i], lines[i + 1], lines[i + 3], i + 4)))
    }
}

/// Index of the first whitespace character, or the length if there is
/// none.
pub open spec fn first_ws(s: Seq<char>) -> nat
    decreases s.len(),
{
    if s.len() == 0 {
        0
    } else if is_ws_char(s[0]) {
        0
    } else {
        1 + first_ws(s.drop_first())
    }
}

/// Index of the last slash, if any.
pub open spec fn last_slash(s: Seq<char>) -> Option<int>
    decreases s.len(),
{
    if s.len() == 0 {
        None
    } else if s.last() == '/' {
        Some(s.len() - 1)
    } else {
        last_slash(s.drop_last())
    }
}

/// The read identifier in a header line: everything after the leading `@`
/// up to the first whitespace, with a trailing `/1` or `/2` removed.
pub open spec fn read_id_spec(hdr: Seq<char>) -> Seq<char>
    recommends
        hdr.len() >= 1,
{
    let t = hdr.drop_first();
    let k = first_ws(t);
    let tag = if k >= t.len() {
        t
    } else {
        t.take(k as int)
    };
    match last_slash(tag) {
        Some(j) => if j + 2 == tag.len() && (tag[j + 1] == '1' || tag[j + 1] == '2') {
            tag.take(j)
        } else {
            tag
        },
        None => tag,
    }
}

proof fn lemma_first_ws(s: Seq<char>, k: int)
    requires
        0 <= k <= s.len(),
        forall|j: int| 0 <= j < k ==> !is_ws_char(s[j]),
        k == s.len() || is_ws_char(s[k]),
    ensures
        first_ws(s) == k,
    decreases s.len(),
{
    if s.len() == 0 {
    } else if k == 0 {
    } else {
        lemma_first_ws(s.drop_first(), k - 1);
    }
}

proof fn lemma_last_slash_none(s: Seq<char>)
    requires
        forall|j: int| 0 <= j < s.len() ==> s[j] != '/',
    ensures
        last_slash(s) is None,
    decreases s.len(),
{
    if s.len() > 0 {
        lemma_last_slash_none(s.drop_last());
    }
}

proof fn lemma_last_slash_at(s: Seq<char>, k: int)
    requires
        0 <= k < s.len(),
        s[k] == '/',
        forall|j: int| k < j < s.len() ==> s[j] != '/',
    ensures
        last_slash(s) == Some(k),
    decreases s.len(),
{
    if k < s.len() - 1 {
        lemma_last_slash_at(s.drop_last(), k);
    }
}

impl FastqFile {
    /// A cursor at the start of the given lines, with no current record.
    pub fn open(lines: Vec<String>) -> (r: Self)
        ensures
            r.lines == lines,
            r.pos == 0,
            r.hdr@.len() == 0,
            r.seq@.len() == 0,
            r.qual@.len() == 0,
    {
        FastqFile {
            lines,
            pos: 0,
            hdr: String::new(),
            seq: String::new(),
            qual: String::new(),
        }
    }

    /// Step to the next record: validate its four lines and load them.
    /// `Ok(false)` at the end of the input, `Ok(true)` with the record
    /// loaded otherwise. A truncated final record is cited at the line
    /// just past the input, so the line count must leave room for it.
    pub fn next_read(&mut self) -> (r: Result<bool, FastqError>)
        requires
            old(self).lines@.len() < usize::MAX,
        ensures
            final(self).lines == old(self).lines,
            match r {
                Ok(b) => if b {
                    fastq_next_spec(lines_view(&old(self).lines), old(self).pos as int) == Ok::<
                        Option<(Seq<char>, Seq<char>, Seq<char>, int)>,
                        FastqError,
                    >(
                        Some(
                            (
                                final(self).hdr@,
                                final(self).seq@,
                                final(self).qual@,
                                final(self).pos as int,
                            ),
                        ),
                    ) && final(self).hdr@.len() >= 1
                } else {
                    old(self).pos >= old(self).lines@.len() && *final(self) == *old(self)
                },
                Err(e) => fastq_next_spec(lines_view(&old(self).lines), old(self).pos as int)
                    == Err::<Option<(Seq<char>, Seq<char>, Seq<char>, int)>, FastqError>(e),
            },
    {
        let n = self.lines.len();
        let i = self.pos;
        if i >= n {
            return Ok(false);
        }
        let hline = self.lines[i].as_str();
        if hline.unicode_len() == 0 || hline.get_char(0) != '@' {
            return Err(FastqError::BadHeader { line: i + 1 });
        }
        if n - i < 4 {
            return Err(FastqError::Incomplete { line: n + 1 });
        }
        let pline = self.lines[i + 2].as_str();
        if pline.unicode_len() == 0 || pline.get_char(0) != '+' {
            return Err(FastqError::BadSeparator { line: i + 3 });
        }
        if self.lines[i + 1].as_str().unicode_len() != self.lines[i + 3].as_str().unicode_len() {
            return Err(FastqError::LengthMismatch { line: i + 4 });
        }
        self.hdr = self.lines[i].clone();
        self.seq = self.lines[i + 1].clone();
        self.qual = self.lines[i + 3].clone();
        self.pos = i + 4;
        Ok(true)
    }

    /// The current record's read identifier: the header after `@` up to
    /// the first whitespace, with a trailing `/1` or `/2` removed.
    pub fn read_id(&self) -> (r: &str)
        requires
            self.hdr@.len() >= 1,
        ensures
            r@ == read_id_spec(self.hdr@),
    {
        let h = self.hdr.as_str();
        let n = h.unicode_len();
        let ghost t = h@.drop_first();
        // end of the tag: first whitespace after the leading '@'
        let mut e: usize = 1;
        while e < n && !is_ws(h.get_char(e))
            invariant
                1 <= e <= n,
                n == h@.len(),
                forall|j: int| 1 <= j < e ==> !is_ws_char(h@[j]),
            decreases n - e,
        {
            e += 1;
        }
        proof {
            assert forall|j: int| 0 <= j < e - 1 implies !is_ws_char(t[j]) by {
                assert(t[j] == h@[j + 1]);
            }
            if e < n {
                assert(t[e - 1] == h@[e as int]);
            }
            lemma_first_ws(t, e - 1);
            assert(h@.subrange(1, e as int) =~= (if first_ws(t) >= t.len() {
                t
            } else {
                t.take(first_ws(t) as int)
            }));
        }
        let ghost tag = h@.subrange(1, e as int);
        // last slash within the tag
        let mut k: usize = e;
        while k > 1 && h.get_char(k - 1) != '/'
            invariant
                1 <= k <= e,
                n == h@.len(),
                e <= n,
                forall|j: int| k <= j < e ==> h@[j] != '/',
            decreases k,
        {
            k -= 1;
        }
        if k == 1 {
            proof {
                assert forall|j: int| 0 <= j < tag.len() implies tag[j] != '/' by {
                    assert(tag[j] == h@[j + 1]);
                }
                lemma_last_slash_none(tag);
            }
            return h.substring_char(1, e);
        }
        proof {
            assert(h@[k - 1] == '/');
            assert(tag[k - 2] == h@[k - 1]);
            assert forall|j: int| k - 2 < j < tag.len() implies tag[j] != '/' by {
                assert(tag[j] == h@[j + 1]);
            }
            lemma_last_slash_at(tag, k - 2);
        }
        if e - k == 1 && (h.get_char(k) == '1' || h.get_char(k) == '2') {
            proof {
                assert(tag[k - 1] == h@[k as int]);
                assert(h@.subrange(1, (k - 1) as int) =~= tag.take(k - 2));
            }
            h.substring_char(1, k - 1)
        } else {
            proof {
                if k - 2 + 2 == tag.len() {
                    assert(tag[k - 1] == h@[k as int]);
                }
            }
            h.substring_char(1, e)
        }
    }
}

} // verus!
