use crate::numeral::{dec_rep, digit_char, u64_to_string};
use crate::row::MaterializedRow;
use vstd::prelude::*;

verus! {

/// Relies on String::push: appends exactly the one given character.
#[verifier::external_body]
fn push_char(out: &mut String, c: char)
    ensures
        final(out)@ == old(out)@.push(c),
{
    out.push(c);
}

/// The character for one hexadecimal digit value, lower case.
pub open spec fn hex_char(d: int) -> char {
    if d < 10 {
        digit_char(d)
    } else if d == 10 {
        'a'
    } else if d == 11 {
        'b'
    } else if d == 12 {
        'c'
    } else if d == 13 {
        'd'
    } else if d == 14 {
        'e'
    } else {
        'f'
    }
}

/// The escape of one character inside a JSON string literal.
pub open spec fn escape_char(c: char) -> Seq<char> {
    if c == '"' {
        seq!['\\', '"']
    } else if c == '\\' {
        seq!['\\', '\\']
    } else if c == '\n' {
        seq!['\\', 'n']
    } else if c == '\r' {
        seq!['\\', 'r']
    } else if c == '\t' {
        seq!['\\', 't']
    } else if (c as u32) < 32 {
        seq!['\\', 'u', '0', '0', hex_char(c as u32 as int / 16), hex_char(c as u32 as int % 16)]
    } else {
        seq![c]
    }
}

/// The escape of a whole string's characters.
pub open spec fn escape_seq(s: Seq<char>) -> Seq<char>
    decreases s.len(),
{
    if s.len() == 0 {
        Seq::empty()
    } else {
        escape_seq(s.drop_last()) + escape_char(s.last())
    }
}

/// A JSON string literal: quotes around the escaped characters.
pub open spec fn quoted(s: Seq<char>) -> Seq<char> {
    seq!['"'] + escape_seq(s) + seq!['"']
}

fn hex_char_of(d: u32) -> (c: char)
    requires
        d < 16,
    ensures
        c == hex_char(d as int),
{
    match d {
        0 => '0',
        1 => '1',
        2 => '2',
        3 => '3',
        4 => '4',
        5 => '5',
        6 => '6',
        7 => '7',
        8 => '8',
        9 => '9',
        10 => 'a',
        11 => 'b',
        12 => 'c',
        13 => 'd',
        14 => 'e',
        _ => 'f',
    }
}

/// Appends the JSON-escaped form of `s` to `out`.
fn escape_append(out: &mut String, s: &str)
    ensures
        final(out)@ == old(out)@ + escape_seq(s@),
{
    let n = s.unicode_len();
    let mut i: usize = 0;
    while i < n
        invariant
            i <= n,
            n == s@.len(),
            out@ == old(out)@ + escape_seq(s@.subrange(0, i as int)),
        decreases n - i,
    {
        let c = s.get_char(i);
        let cu = c as u32;
        proof {
            let pre = s@.subrange(0, i as int);
            let cur = s@.subrange(0, i + 1 as int);
            assert(cur.drop_last() =~= pre);
            assert(cur.last() == s@[i as int]);
        }
        if c == '"' {
            push_char(out, '\\');
            push_char(out, '"');
        } else if c == '\\' {
            push_char(out, '\\');
            push_char(out, '\\');
        } else if c == '\n' {
            push_char(out, '\\');
            push_char(out, 'n');
        } else if c == '\r' {
            push_char(out, '\\');
            push_char(out, 'r');
        } else if c == '\t' {
            push_char(out, '\\');
            push_char(out, 't');
        } else if cu < 32 {
            push_char(out, '\\');
            push_char(out, 'u');
            push_char(out, '0');
            push_char(out, '0');
            push_char(out, hex_char_of(cu / 16));
            push_char(out, hex_char_of(cu % 16));
        } else {
            push_char(out, c);
        }
        proof {
            assert(out@ =~= old(out)@ + escape_seq(s@.subrange(0, i + 1 as int)));
        }
        i = i + 1;
    }
    proof {
        assert(s@.subrange(0, n as int) =~= s@);
    }
}

/// One exported `(name, value)` entry: a two-element JSON array.
pub open spec fn entry_json(p: (Seq<char>, Seq<char>)) -> Seq<char> {
    seq!['['] + quoted(p.0) + seq![','] + quoted(p.1) + seq![']']
}

/// The comma-separated entries of an exported sample.
pub open spec fn entries_json(es: Seq<(Seq<char>, Seq<char>)>) -> Seq<char>
    decreases es.len(),
{
    if es.len() == 0 {
        Seq::empty()
    } else if es.len() == 1 {
        entry_json(es[0])
    } else {
        entries_json(es.drop_last()) + seq![','] + entry_json(es.last())
    }
}

/// An exported sample: the JSON array of its entries.
pub open spec fn sample_json(es: Seq<(Seq<char>, Seq<char>)>) -> Seq<char> {
    seq!['['] + entries_json(es) + seq![']']
}

/// One export-log record.
pub open spec fn record_json(index: nat, dataset: Seq<char>, es: Seq<(Seq<char>, Seq<char>)>)
    -> Seq<char> {
    "{\"index\":"@ + dec_rep(index) + ",\"dataset_id\":"@ + quoted(dataset) + ",\"sample\":"@
        + sample_json(es) + "}"@
}

/// A point-in-time copy of one row selected for export, independent of
/// later window churn.
pub struct ExportRecord {
    pub index: usize,
    pub dataset_id: String,
    pub sample: MaterializedRow,
}

/// Renders one export record as its JSON object.
pub fn encode_export_record(rec: &ExportRecord) -> (out: String)
    ensures
        out@ == record_json(rec.index as nat, rec.dataset_id@, rec.sample.rep()),
{
    let mut out = String::from_str("{\"index\":");
    proof {
        reveal_strlit("{\"index\":");
    }
    let digits = u64_to_string(rec.index as u64);
    out.append(digits.as_str());
    out.append(",\"dataset_id\":\"");
    escape_append(&mut out, rec.dataset_id.as_str());
    out.append("\",\"sample\":[");
    proof {
        reveal_strlit(",\"dataset_id\":\"");
        reveal_strlit(",\"dataset_id\":");
        reveal_strlit("\",\"sample\":[");
        reveal_strlit(",\"sample\":");
        reveal_strlit("\"");
        reveal_strlit("[");
        assert(out@ =~= "{\"index\":"@ + dec_rep(rec.index as nat) + ",\"dataset_id\":"@ + quoted(
            rec.dataset_id@,
        ) + ",\"sample\":"@ + seq!['[']);
    }
    let ghost es = rec.sample.rep();
    let ghost head = "{\"index\":"@ + dec_rep(rec.index as nat) + ",\"dataset_id\":"@ + quoted(
        rec.dataset_id@,
    ) + ",\"sample\":"@;
    let mut k: usize = 0;
    while k < rec.sample.entries.len()
        invariant
            k <= rec.sample.entries@.len(),
            es == rec.sample.rep(),
            es.len() == rec.sample.entries@.len(),
            out@ == head + seq!['['] + entries_json(es.subrange(0, k as int)),
        decreases rec.sample.entries@.len() - k,
    {
        if k > 0 {
            out.append(",");
        }
        out.append("[\"");
        escape_append(&mut out, rec.sample.entries[k].0.as_str());
        out.append("\",\"");
        escape_append(&mut out, rec.sample.entries[k].1.as_str());
        out.append("\"]");
        proof {
            reveal_strlit(",");
            reveal_strlit("[\"");
            reveal_strlit("\",\"");
            reveal_strlit("\"]");
            let pre = es.subrange(0, k as int);
            let cur = es.subrange(0, k + 1 as int);
            assert(cur.drop_last() =~= pre);
            assert(cur.last() == es[k as int]);
            assert(es[k as int].0 == rec.sample.entries@[k as int].0@);
            assert(es[k as int].1 == rec.sample.entries@[k as int].1@);
            if k == 0 {
                assert(entries_json(cur) == entry_json(es[0]));
            } else {
                assert(entries_json(cur) == entries_json(pre) + seq![','] + entry_json(
                    es[k as int],
                ));
            }
            assert(out@ =~= head + seq!['['] + entries_json(cur));
        }
        k = k + 1;
    }
    out.append("]}");
    proof {
        reveal_strlit("]}");
        reveal_strlit("}");
        assert(es.subrange(0, es.len() as int) =~= es);
        assert(out@ =~= record_json(rec.index as nat, rec.dataset_id@, rec.sample.rep()));
    }
    out
}

/// What the export log held before an append: no file yet, an empty file,
/// or earlier content.
#[derive(Clone, Copy, Debug, PartialEq, Eq, Structural)]
pub enum ExportLogState {
    Absent,
    Empty,
    NonEmpty,
}

/// The text one export appends to the log: the opening bracket before the
/// first record of a fresh log, a comma separator before a record that
/// follows earlier content.
pub fn export_chunk(state: ExportLogState, record_text: &str) -> (out: String)
    ensures
        out@ == match state {
            ExportLogState::Absent => seq!['[', '\n'] + record_text@,
            ExportLogState::Empty => record_text@,
            ExportLogState::NonEmpty => seq![',', '\n'] + record_text@,
        },
{
    let lead: &str = match state {
        ExportLogState::Absent => "[\n",
        ExportLogState::Empty => "",
        ExportLogState::NonEmpty => ",\n",
    };
    let out = String::from_str(lead).concat(record_text);
    proof {
        reveal_strlit("[\n");
        reveal_strlit("");
        reveal_strlit(",\n");
        assert(out@ =~= match state {
            ExportLogState::Absent => seq!['[', '\n'] + record_text@,
            ExportLogState::Empty => record_text@,
            ExportLogState::NonEmpty => seq![',', '\n'] + record_text@,
        });
    }
    out
}

/// The text that closes the log on shutdown: the closing bracket when a
/// log file exists, nothing when none was ever written.
pub fn close_chunk(state: ExportLogState) -> (out: Option<String>)
    ensures
        match state {
            ExportLogState::Absent => out is None,
            _ => out matches Some(s) && s@ == seq![']', '\n'],
        },
{
    match state {
        ExportLogState::Absent => None,
        _ => {
            let s = String::from_str("]\n");
            proof {
                reveal_strlit("]\n");
                assert(s@ =~= seq![']', '\n']);
            }
            Some(s)
        },
    }
}

} // verus!
