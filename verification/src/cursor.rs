use crate::numeral::{
    canonical_dec, dec_rep, dec_val, lemma_dec_rep_canonical, lemma_dec_rep_of_val,
    lemma_dec_val_of_rep, parse_digits, parse_index, spec_parse_index, u64_to_string,
};
use vstd::prelude::*;

verus! {

/// The current logical row position, kept inside the table's bounds on
/// every mutation.
pub struct Cursor {
    pub current_row: usize,
}

/// The position a wished-for row is clamped to in a table of `total` rows.
pub open spec fn clamped(want: int, total: int) -> int {
    if total == 0 {
        0
    } else if want < total {
        want
    } else {
        total - 1
    }
}

impl Cursor {
    /// The cursor sits inside the table (or at zero when the table is
    /// empty).
    pub open spec fn inv(self, total: int) -> bool {
        if total == 0 {
            self.current_row == 0
        } else {
            self.current_row < total
        }
    }

    /// The starting position: the saved value when one was persisted,
    /// else zero; clamped into the table.
    pub fn from_saved(saved: Option<usize>, total: usize) -> (c: Cursor)
        ensures
            c.current_row == clamped(
                match saved {
                    Some(v) => v as int,
                    None => 0,
                },
                total as int,
            ),
            c.inv(total as int),
    {
        let want = match saved {
            Some(v) => v,
            None => 0,
        };
        let row = if total == 0 {
            0
        } else if want < total {
            want
        } else {
            total - 1
        };
        Cursor { current_row: row }
    }

    /// One row back; stays at the first row.
    pub fn prev(&mut self)
        ensures
            final(self).current_row == if old(self).current_row > 0 {
                old(self).current_row - 1
            } else {
                0
            },
    {
        if self.current_row > 0 {
            self.current_row = self.current_row - 1;
        }
    }

    /// One row forward; stays at the last row.
    pub fn next(&mut self, total: usize)
        requires
            old(self).inv(total as int),
        ensures
            final(self).inv(total as int),
            final(self).current_row == if old(self).current_row + 1 < total {
                old(self).current_row + 1
            } else {
                old(self).current_row as int
            },
    {
        if total > 0 && self.current_row + 1 < total {
            self.current_row = self.current_row + 1;
        }
    }

    /// One-based jump: row numbers `1..=total` move the cursor to that row;
    /// anything else leaves it in place.
    pub fn jump_one_based(&mut self, requested: usize, total: usize)
        requires
            old(self).inv(total as int),
        ensures
            final(self).inv(total as int),
            final(self).current_row == if 1 <= requested && requested <= total {
                requested - 1
            } else {
                old(self).current_row as int
            },
    {
        if requested >= 1 && requested <= total {
            self.current_row = requested - 1;
        }
    }

    /// Jump from a typed-in row number: the text is parsed as a one-based
    /// decimal row number, with an optional leading plus sign, and applied
    /// as `jump_one_based`; text that is no such number leaves the cursor
    /// in place.
    pub fn jump_text(&mut self, input: &str, total: usize)
        requires
            old(self).inv(total as int),
        ensures
            final(self).inv(total as int),
            final(self).current_row == match spec_parse_index(input@) {
                Some(v) => if 1 <= v && v <= total {
                    v - 1
                } else {
                    old(self).current_row as int
                },
                None => old(self).current_row as int,
            },
    {
        match parse_index(input) {
            Some(v) => self.jump_one_based(v, total),
            None => (),
        }
    }
}

/// The persisted form of a cursor position.
pub open spec fn cursor_json(n: nat) -> Seq<char> {
    "{\"current_row\":"@ + dec_rep(n) + "}"@
}

/// The value a persisted cursor record parses back to: the digits between
/// the fixed frame, accepted only in canonical form.
pub open spec fn spec_decode_cursor(t: Seq<char>) -> Option<usize> {
    let p = "{\"current_row\":"@;
    if t.len() >= p.len() + 2 && t.subrange(0, p.len() as int) == p && t.last() == '}'
        && canonical_dec(t.subrange(p.len() as int, t.len() - 1)) && dec_val(
        t.subrange(p.len() as int, t.len() - 1),
    ) <= usize::MAX {
        Some(dec_val(t.subrange(p.len() as int, t.len() - 1)) as usize)
    } else {
        None
    }
}

/// Renders a cursor position as its persisted record.
pub fn encode_cursor(n: usize) -> (s: String)
    ensures
        s@ == cursor_json(n as nat),
{
    let s = String::from_str("{\"current_row\":").concat(u64_to_string(n as u64).as_str()).concat(
        "}",
    );
    proof {
        assert(s@ =~= cursor_json(n as nat));
    }
    s
}

/// Parses a persisted cursor record.
pub fn decode_cursor(s: &str) -> (r: Option<usize>)
    ensures
        r == spec_decode_cursor(s@),
{
    proof {
        reveal_strlit("{\"current_row\":");
    }
    let p: &str = "{\"current_row\":";
    let plen = p.unicode_len();
    let slen = s.unicode_len();
    if slen < plen + 2 {
        return None;
    }
    let mut i: usize = 0;
    while i < plen
        invariant
            i <= plen,
            plen == p@.len(),
            slen == s@.len(),
            plen + 2 <= slen,
            p@ == "{\"current_row\":"@,
            forall|j: int| 0 <= j < i ==> s@[j] == p@[j],
        decreases plen - i,
    {
        if s.get_char(i) != p.get_char(i) {
            proof {
                assert(s@.subrange(0, plen as int)[i as int] == s@[i as int]);
                assert(s@.subrange(0, plen as int) != p@);
            }
            return None;
        }
        i = i + 1;
    }
    proof {
        assert(s@.subrange(0, plen as int) =~= p@);
    }
    if s.get_char(slen - 1) != '}' {
        return None;
    }
    let ghost d = s@.subrange(plen as int, slen - 1);
    proof {
        assert(d.len() == slen - 1 - plen >= 1);
        assert(d[0] == s@[plen as int]);
    }
    if slen - plen > 2 && s.get_char(plen) == '0' {
        proof {
            assert(!canonical_dec(d));
        }
        return None;
    }
    match parse_digits(s, plen, slen - 1) {
        Some(v) => {
            proof {
                assert(canonical_dec(d));
            }
            Some(v)
        },
        None => None,
    }
}

/// The cursor parser accepts exactly the records the cursor encoder
/// writes: a text decodes to `v` precisely when it is the persisted form
/// of `v`.
pub proof fn lemma_decode_cursor_exact(t: Seq<char>, v: usize)
    ensures
        spec_decode_cursor(t) == Some(v) <==> t == cursor_json(v as nat),
{
    reveal_strlit("{\"current_row\":");
    reveal_strlit("}");
    if t == cursor_json(v as nat) {
        lemma_cursor_round_trip(v);
    }
    if spec_decode_cursor(t) == Some(v) {
        let p = "{\"current_row\":"@;
        let d = t.subrange(p.len() as int, t.len() - 1);
        lemma_dec_rep_of_val(d);
        assert(dec_val(d) == v);
        assert(dec_rep(v as nat) == d);
        assert(t =~= t.subrange(0, p.len() as int) + d + seq![t.last()]);
        assert(cursor_json(v as nat) =~= p + d + seq!['}']);
    }
}

/// Round trip of cursor persistence: a saved position always loads back as
/// exactly the value that was saved.
pub proof fn lemma_cursor_round_trip(n: usize)
    ensures
        spec_decode_cursor(cursor_json(n as nat)) == Some(n),
{
    reveal_strlit("{\"current_row\":");
    reveal_strlit("}");
    lemma_dec_rep_canonical(n as nat);
    lemma_dec_val_of_rep(n as nat);
    let p = "{\"current_row\":"@;
    let t = cursor_json(n as nat);
    assert(t.len() == p.len() + dec_rep(n as nat).len() + 1);
    assert(t.subrange(0, p.len() as int) =~= p);
    assert(t.last() == '}');
    assert(t.subrange(p.len() as int, t.len() - 1) =~= dec_rep(n as nat));
}

} // verus!
