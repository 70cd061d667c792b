//! Record codec: one log entry to and from one self-delimited text line.
//!
//! A line holds the three fields of a record — operation tag, key, value —
//! joined by tabs, with backslash, tab and newline escaped inside each
//! field.  `decode_line` is the exact inverse of `encode_line` for every
//! record, which `lemma_decode_encode` proves.
use vstd::prelude::*;

verus! {

use crate::KvError;

/// Spec-level log record: operation tag, key and value as character
/// sequences.
#[verifier::ext_equal]
pub struct Record {
    pub cmd: Seq<char>,
    pub key: Seq<char>,
    pub value: Seq<char>,
}

/// The operation tag of a record that sets a key.
pub open spec fn set_cmd() -> Seq<char> {
    "set"@
}

/// The operation tag of a record that removes a key.
pub open spec fn rm_cmd() -> Seq<char> {
    "rm"@
}

/// The record appended for `set(key, value)`.
pub open spec fn set_record(key: Seq<char>, value: Seq<char>) -> Record {
    Record { cmd: set_cmd(), key: key, value: value }
}

/// The record appended for `remove(key)`: the value field stays empty.
pub open spec fn rm_record(key: Seq<char>) -> Record {
    Record { cmd: rm_cmd(), key: key, value: Seq::<char>::empty() }
}

/// The views of a sequence of strings, element by element.
pub open spec fn str_views(lines: Seq<String>) -> Seq<Seq<char>> {
    Seq::new(lines.len(), |i: int| lines[i]@)
}

/// One escaped character: backslash, tab and newline become a
/// two-character escape, every other character stands for itself.
pub open spec fn esc_char(c: char) -> Seq<char> {
    if c == '\\' {
        seq!['\\', '\\']
    } else if c == '\t' {
        seq!['\\', 't']
    } else if c == '\n' {
        seq!['\\', 'n']
    } else {
        seq![c]
    }
}

/// The character an escape pair `\\x` stands for, if `x` is a valid
/// escape letter.
pub open spec fn unesc_char(c: char) -> Option<char> {
    if c == '\\' {
        Some('\\')
    } else if c == 't' {
        Some('\t')
    } else if c == 'n' {
        Some('\n')
    } else {
        None
    }
}

/// A whole field, escaped character by character.
pub open spec fn esc(s: Seq<char>) -> Seq<char>
    decreases s.len(),
{
    if s.len() == 0 {
        Seq::<char>::empty()
    } else {
        esc(s.drop_last()) + esc_char(s.last())
    }
}

/// The encoded form of a record: its three fields, escaped, joined by tabs.
pub open spec fn encode_spec(r: Record) -> Seq<char> {
    esc(r.cmd) + seq!['\t'] + esc(r.key) + seq!['\t'] + esc(r.value)
}

/// Splits a line into its unescaped fields at unescaped tabs.
///
/// `done` holds the fields already finished and `cur` the one being read,
/// so the definition follows the decoding loop step by step.  `None` marks
/// a malformed line: a dangling or unknown escape, or a raw newline.
pub open spec fn parse_fields(s: Seq<char>, done: Seq<Seq<char>>, cur: Seq<char>) -> Option<
    Seq<Seq<char>>,
>
    decreases s.len(),
{
    if s.len() == 0 {
        Some(done.push(cur))
    } else if s[0] == '\t' {
        parse_fields(s.drop_first(), done.push(cur), Seq::<char>::empty())
    } else if s[0] == '\\' {
        if s.len() == 1 {
            None
        } else {
            match unesc_char(s[1]) {
                Some(c) => parse_fields(s.skip(2), done, cur.push(c)),
                None => None,
            }
        }
    } else if s[0] == '\n' {
        None
    } else {
        parse_fields(s.drop_first(), done, cur.push(s[0]))
    }
}

/// The record a line stands for, or `None` if the line is malformed: bad
/// escaping, or not exactly three fields.
pub open spec fn decode_spec(s: Seq<char>) -> Option<Record> {
    match parse_fields(s, Seq::<Seq<char>>::empty(), Seq::<char>::empty()) {
        Some(fs) => if fs.len() == 3 {
            Some(Record { cmd: fs[0], key: fs[1], value: fs[2] })
        } else {
            None
        },
        None => None,
    }
}

/// Peeling the first character off an escaped field.
proof fn lemma_esc_front(s: Seq<char>)
    requires
        s.len() > 0,
    ensures
        esc(s) == esc_char(s[0]) + esc(s.drop_first()),
    decreases s.len(),
{
    if s.len() == 1 {
        assert(s.drop_first().len() == 0);
        assert(esc(s.drop_last()).len() == 0);
        assert(esc(s) =~= esc_char(s[0]) + esc(s.drop_first()));
    } else {
        let head = s.drop_last();
        lemma_esc_front(head);
        assert(head[0] == s[0]);
        assert(head.drop_first() =~= s.drop_first().drop_last());
        assert(s.drop_first().last() == s.last());
        assert(esc(s.drop_first()) == esc(s.drop_first().drop_last()) + esc_char(
            s.drop_first().last(),
        ));
        assert(esc(s) =~= esc_char(s[0]) + esc(s.drop_first()));
    }
}

/// Escaped fields never hold a raw tab or newline, so the parser reads an
/// escaped field back unchanged, leaving whatever follows it untouched.
proof fn lemma_parse_esc(s: Seq<char>, rest: Seq<char>, done: Seq<Seq<char>>, cur: Seq<char>)
    ensures
        parse_fields(esc(s) + rest, done, cur) == parse_fields(rest, done, cur + s),
    decreases s.len(),
{
    if s.len() == 0 {
        assert(esc(s) + rest =~= rest);
        assert(cur + s =~= cur);
    } else {
        lemma_esc_front(s);
        let c = s[0];
        let tail = s.drop_first();
        let full = esc(s) + rest;
        let next = esc(tail) + rest;
        lemma_parse_esc(tail, rest, done, cur.push(c));
        assert(cur.push(c) + tail =~= cur + s);
        if c == '\\' || c == '\t' || c == '\n' {
            assert(esc_char(c).len() == 2);
            assert(full =~= esc_char(c) + next);
            assert(full[0] == '\\');
            assert(unesc_char(full[1]) == Some(c));
            assert(full.skip(2) =~= next);
            assert(parse_fields(full, done, cur) == parse_fields(next, done, cur.push(c)));
        } else {
            assert(esc_char(c).len() == 1);
            assert(full =~= esc_char(c) + next);
            assert(full[0] == c);
            assert(full.drop_first() =~= next);
            assert(parse_fields(full, done, cur) == parse_fields(next, done, cur.push(c)));
        }
    }
}

/// Decoding inverts encoding: every record read back from its own encoded
/// line is the record itself.
pub proof fn lemma_decode_encode(r: Record)
    ensures
        decode_spec(encode_spec(r)) == Some(r),
{
    let tab = seq!['\t'];
    let none_done = Seq::<Seq<char>>::empty();
    let none_cur = Seq::<char>::empty();
    let rest1 = tab + esc(r.key) + tab + esc(r.value);
    assert(encode_spec(r) =~= esc(r.cmd) + rest1);
    lemma_parse_esc(r.cmd, rest1, none_done, none_cur);
    assert(none_cur + r.cmd =~= r.cmd);
    assert(rest1[0] == '\t');
    let rest2 = esc(r.key) + (tab + esc(r.value));
    assert(rest1.drop_first() =~= rest2);
    lemma_parse_esc(r.key, tab + esc(r.value), none_done.push(r.cmd), none_cur);
    assert(none_cur + r.key =~= r.key);
    assert((tab + esc(r.value))[0] == '\t');
    assert((tab + esc(r.value)).drop_first() =~= esc(r.value));
    lemma_parse_esc(r.value, Seq::<char>::empty(), none_done.push(r.cmd).push(r.key), none_cur);
    assert(none_cur + r.value =~= r.value);
    assert(esc(r.value) + Seq::<char>::empty() =~= esc(r.value));
    let fs = none_done.push(r.cmd).push(r.key).push(r.value);
    assert(parse_fields(encode_spec(r), none_done, none_cur) == Some(fs));
    assert(fs.len() == 3);
    assert(fs[0] == r.cmd);
    assert(fs[1] == r.key);
    assert(fs[2] == r.value);
    assert(decode_spec(encode_spec(r)) == Some(Record { cmd: fs[0], key: fs[1], value: fs[2] }));
    assert((Record { cmd: fs[0], key: fs[1], value: fs[2] }) =~= r);
}

/// Relies on `String::push`: it appends exactly the given character.
pub assume_specification[ String::push ](s: &mut String, ch: char)
    ensures
        final(s)@ == old(s)@.push(ch),
;

/// One log entry: an operation tag (`"set"` or `"rm"`), a key and a value.
pub struct LogLine {
    pub cmd: String,
    pub key: String,
    pub value: String,
}

impl View for LogLine {
    type V = Record;

    open spec fn view(&self) -> Record {
        Record { cmd: self.cmd@, key: self.key@, value: self.value@ }
    }
}

impl LogLine {
    /// Builds a record from its three fields.
    pub fn new(cmd: String, key: String, value: String) -> (r: LogLine)
        ensures
            r@ == (Record { cmd: cmd@, key: key@, value: value@ }),
    {
        LogLine { cmd, key, value }
    }
}

/// Appends the escaped form of `field` to `out`.
fn push_escaped(out: &mut String, field: &str)
    ensures
        final(out)@ == old(out)@ + esc(field@),
{
    let n = field.unicode_len();
    let mut i: usize = 0;
    while i < n
        invariant
            n == field@.len(),
            i <= n,
            out@ == old(out)@ + esc(field@.take(i as int)),
        decreases n - i,
    {
        let c = field.get_char(i);
        proof {
            assert(field@.take(i + 1).drop_last() =~= field@.take(i as int));
            assert(field@.take(i + 1).last() == field@[i as int]);
        }
        if c == '\\' {
            out.push('\\');
            out.push('\\');
        } else if c == '\t' {
            out.push('\\');
            out.push('t');
        } else if c == '\n' {
            out.push('\\');
            out.push('n');
        } else {
            out.push(c);
        }
        proof {
            assert(out@ =~= old(out)@ + esc(field@.take(i + 1)));
        }
        i = i + 1;
    }
    proof {
        assert(field@.take(n as int) =~= field@);
    }
}

/// Encodes a record as one log line: its three fields, each with
/// backslash, tab and newline escaped, joined by tabs.
pub fn encode_line(rec: &LogLine) -> (s: String)
    ensures
        s@ == encode_spec(rec@),
{
    let mut out = String::new();
    push_escaped(&mut out, rec.cmd.as_str());
    out.push('\t');
    push_escaped(&mut out, rec.key.as_str());
    out.push('\t');
    push_escaped(&mut out, rec.value.as_str());
    proof {
        assert(out@ =~= encode_spec(rec@));
    }
    out
}

/// Decodes one log line back into a record; a malformed line is reported
/// as `CorruptRecord` and never aborts the caller.
pub fn decode_line(s: &str) -> (r: Result<LogLine, KvError>)
    ensures
        match decode_spec(s@) {
            Some(rec) => r matches Ok(l) && l@ == rec,
            None => r matches Err(e) && e == KvError::CorruptRecord,
        },
{
    let n = s.unicode_len();
    let mut fields: Vec<String> = Vec::new();
    let mut cur = String::new();
    let mut i: usize = 0;
    proof {
        assert(s@.skip(0) =~= s@);
        assert(str_views(fields@) =~= Seq::<Seq<char>>::empty());
    }
    while i < n
        invariant
            n == s@.len(),
            i <= n,
            parse_fields(s@.skip(i as int), str_views(fields@), cur@) == parse_fields(
                s@,
                Seq::<Seq<char>>::empty(),
                Seq::<char>::empty(),
            ),
        decreases n - i,
    {
        let c = s.get_char(i);
        proof {
            assert(s@.skip(i as int)[0] == s@[i as int]);
        }
        if c == '\t' {
            let ghost old_fields = str_views(fields@);
            let ghost old_cur = cur@;
            fields.push(cur);
            cur = String::new();
            proof {
                assert(str_views(fields@) =~= old_fields.push(old_cur));
                assert(s@.skip(i as int).drop_first() =~= s@.skip(i + 1));
            }
            i = i + 1;
        } else if c == '\\' {
            if i + 1 >= n {
                proof {
                    assert(s@.skip(i as int).len() == 1);
                }
                return Err(KvError::CorruptRecord);
            }
            let c2 = s.get_char(i + 1);
            proof {
                assert(s@.skip(i as int)[1] == s@[i + 1]);
            }
            if c2 == '\\' {
                cur.push('\\');
            } else if c2 == 't' {
                cur.push('\t');
            } else if c2 == 'n' {
                cur.push('\n');
            } else {
                proof {
                    assert(unesc_char(s@.skip(i as int)[1]) is None);
                }
                return Err(KvError::CorruptRecord);
            }
            proof {
                assert(s@.skip(i as int).skip(2) =~= s@.skip(i + 2));
            }
            i = i + 2;
        } else if c == '\n' {
            return Err(KvError::CorruptRecord);
        } else {
            cur.push(c);
            proof {
                assert(s@.skip(i as int).drop_first() =~= s@.skip(i + 1));
            }
            i = i + 1;
        }
    }
    proof {
        assert(s@.skip(n as int) =~= Seq::<char>::empty());
    }
    let ghost old_fields = str_views(fields@);
    let ghost old_cur = cur@;
    fields.push(cur);
    proof {
        assert(str_views(fields@) =~= old_fields.push(old_cur));
    }
    if fields.len() != 3 {
        return Err(KvError::CorruptRecord);
    }
    let ghost fs = str_views(fields@);
    proof {
        assert(parse_fields(s@, Seq::<Seq<char>>::empty(), Seq::<char>::empty()) == Some(fs));
        assert(fs.len() == 3);
    }
    let value = fields.pop().unwrap();
    let key = fields.pop().unwrap();
    let cmd = fields.pop().unwrap();
    proof {
        assert(cmd@ == fs[0]);
        assert(key@ == fs[1]);
        assert(value@ == fs[2]);
    }
    Ok(LogLine { cmd, key, value })
}

} // verus!
