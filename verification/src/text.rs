//! Verified text handling: `str` equality over character sequences, and the
//! line-record loader's parsing — splitting a source into lines, splitting a
//! line into whitespace-separated fields, and reading a decimal flag field.

use vstd::prelude::*;

verus! {

/// Whitespace inside a line record: spaces, tabs, and the carriage return
/// left by a CRLF line break.
pub open spec fn is_space(c: char) -> bool {
    c == ' ' || c == '\t' || c == '\r'
}

/// The lines of `cur + rest`, where `cur` is a partial line already read:
/// lines are separated by `'\n'`, the separator belongs to no line, and a
/// trailing empty segment is not a line.
pub open spec fn split_from(cur: Seq<char>, rest: Seq<char>) -> Seq<Seq<char>>
    decreases rest.len(),
{
    if rest.len() == 0 {
        if cur.len() == 0 {
            Seq::empty()
        } else {
            seq![cur]
        }
    } else if rest[0] == '\n' {
        seq![cur] + split_from(Seq::empty(), rest.drop_first())
    } else {
        split_from(cur.push(rest[0]), rest.drop_first())
    }
}

/// The `'\n'`-separated lines of `s`.
pub open spec fn split_lines(s: Seq<char>) -> Seq<Seq<char>> {
    split_from(Seq::empty(), s)
}

/// The whitespace-separated fields of `cur + rest`, where `cur` is a partial
/// field already read: runs of whitespace separate fields and belong to none,
/// and empty fields do not arise.
pub open spec fn tokens_from(cur: Seq<char>, rest: Seq<char>) -> Seq<Seq<char>>
    decreases rest.len(),
{
    if rest.len() == 0 {
        if cur.len() == 0 {
            Seq::empty()
        } else {
            seq![cur]
        }
    } else if is_space(rest[0]) {
        if cur.len() == 0 {
            tokens_from(Seq::empty(), rest.drop_first())
        } else {
            seq![cur] + tokens_from(Seq::empty(), rest.drop_first())
        }
    } else {
        tokens_from(cur.push(rest[0]), rest.drop_first())
    }
}

/// The whitespace-separated fields of `line`.
pub open spec fn tokens_of(line: Seq<char>) -> Seq<Seq<char>> {
    tokens_from(Seq::empty(), line)
}

/// A well-formed flag field: one or more decimal digits.
pub open spec fn is_flag_token(t: Seq<char>) -> bool {
    t.len() > 0 && forall|i: int| 0 <= i < t.len() ==> '0' <= t[i] && t[i] <= '9'
}

/// A flag field's boolean reading: set exactly when its integer is nonzero,
/// that is, when some digit is not `'0'`.
pub open spec fn flag_is_set(t: Seq<char>) -> bool {
    exists|i: int| 0 <= i < t.len() && t[i] != '0'
}

/// The (name, value) reading of one line record: exactly two
/// whitespace-separated fields, the flag and then the name, where the flag is
/// a decimal integer, read as true exactly when nonzero. Anything else — a
/// blank line, a wrong field count, an unreadable flag — has no reading.
pub open spec fn parse_record(line: Seq<char>) -> Option<(Seq<char>, bool)> {
    let toks = tokens_of(line);
    if toks.len() == 2 && is_flag_token(toks[0]) {
        Some((toks[1], flag_is_set(toks[0])))
    } else {
        None
    }
}

/// Split a source text into its lines, as `split_lines` reads it.
pub fn split_records(content: &str) -> (r: Vec<String>)
    ensures
        r.deep_view() == split_lines(content@),
{
    let mut lines: Vec<String> = Vec::new();
    let n = content.unicode_len();
    let mut start: usize = 0;
    let mut i: usize = 0;
    proof {
        assert(content@.subrange(0, 0) =~= Seq::<char>::empty());
        assert(content@.skip(0) =~= content@);
        assert(lines.deep_view() + split_lines(content@) =~= split_lines(content@));
    }
    while i < n
        invariant
            start <= i <= n,
            n == content@.len(),
            split_lines(content@) == lines.deep_view() + split_from(
                content@.subrange(start as int, i as int),
                content@.skip(i as int),
            ),
        decreases n - i,
    {
        let ghost cur = content@.subrange(start as int, i as int);
        let ghost lines_before = lines.deep_view();
        proof {
            assert(content@.skip(i as int)[0] == content@[i as int]);
            assert(content@.skip(i as int).drop_first() =~= content@.skip(i + 1));
        }
        let c = content.get_char(i);
        if c == '\n' {
            let line = content.substring_char(start, i);
            lines.push(String::from_str(line));
            start = i + 1;
            proof {
                assert(content@.subrange(i + 1, i + 1) =~= Seq::<char>::empty());
                assert(lines.deep_view() =~= lines_before.push(cur));
                assert(lines_before + (seq![cur] + split_from(
                    Seq::<char>::empty(),
                    content@.skip(i + 1),
                )) =~= lines_before.push(cur) + split_from(
                    Seq::<char>::empty(),
                    content@.skip(i + 1),
                ));
            }
        } else {
            proof {
                assert(cur.push(content@[i as int]) =~= content@.subrange(start as int, i + 1));
            }
        }
        i = i + 1;
    }
    proof {
        assert(content@.skip(n as int) =~= Seq::<char>::empty());
    }
    if start < n {
        let ghost lines_before = lines.deep_view();
        let ghost cur = content@.subrange(start as int, n as int);
        let line = content.substring_char(start, n);
        lines.push(String::from_str(line));
        proof {
            assert(lines.deep_view() =~= lines_before.push(cur));
            assert(lines_before + seq![cur] =~= lines_before.push(cur));
        }
    } else {
        proof {
            assert(content@.subrange(start as int, n as int).len() == 0);
            assert(lines.deep_view() + Seq::<Seq<char>>::empty() =~= lines.deep_view());
        }
    }
    lines
}

/// Split a line into its whitespace-separated fields, as `tokens_of` reads
/// it.
pub fn tokenize(line: &str) -> (r: Vec<String>)
    ensures
        r.deep_view() == tokens_of(line@),
{
    let mut toks: Vec<String> = Vec::new();
    let n = line.unicode_len();
    let mut start: usize = 0;
    let mut i: usize = 0;
    proof {
        assert(line@.subrange(0, 0) =~= Seq::<char>::empty());
        assert(line@.skip(0) =~= line@);
        assert(toks.deep_view() + tokens_of(line@) =~= tokens_of(line@));
    }
    while i < n
        invariant
            start <= i <= n,
            n == line@.len(),
            tokens_of(line@) == toks.deep_view() + tokens_from(
                line@.subrange(start as int, i as int),
                line@.skip(i as int),
            ),
        decreases n - i,
    {
        let ghost cur = line@.subrange(start as int, i as int);
        let ghost toks_before = toks.deep_view();
        proof {
            assert(line@.skip(i as int)[0] == line@[i as int]);
            assert(line@.skip(i as int).drop_first() =~= line@.skip(i + 1));
        }
        let c = line.get_char(i);
        if c == ' ' || c == '\t' || c == '\r' {
            if start < i {
                let tok = line.substring_char(start, i);
                toks.push(String::from_str(tok));
                proof {
                    assert(toks.deep_view() =~= toks_before.push(cur));
                    assert(toks_before + (seq![cur] + tokens_from(
                        Seq::<char>::empty(),
                        line@.skip(i + 1),
                    )) =~= toks_before.push(cur) + tokens_from(
                        Seq::<char>::empty(),
                        line@.skip(i + 1),
                    ));
                }
            } else {
                proof {
                    assert(cur.len() == 0);
                }
            }
            start = i + 1;
            proof {
                assert(line@.subrange(i + 1, i + 1) =~= Seq::<char>::empty());
            }
        } else {
            proof {
                assert(cur.push(line@[i as int]) =~= line@.subrange(start as int, i + 1));
            }
        }
        i = i + 1;
    }
    proof {
        assert(line@.skip(n as int) =~= Seq::<char>::empty());
    }
    if start < n {
        let ghost toks_before = toks.deep_view();
        let ghost cur = line@.subrange(start as int, n as int);
        let tok = line.substring_char(start, n);
        toks.push(String::from_str(tok));
        proof {
            assert(toks.deep_view() =~= toks_before.push(cur));
            assert(toks_before + seq![cur] =~= toks_before.push(cur));
        }
    } else {
        proof {
            assert(line@.subrange(start as int, n as int).len() == 0);
            assert(toks.deep_view() + Seq::<Seq<char>>::empty() =~= toks.deep_view());
        }
    }
    toks
}

/// Read a flag field: `Some` of its boolean value for a run of decimal
/// digits, read as true exactly when some digit is nonzero, and `None` for
/// anything else.
pub fn parse_flag(tok: &str) -> (r: Option<bool>)
    ensures
        match r {
            Some(b) => is_flag_token(tok@) && b == flag_is_set(tok@),
            None => !is_flag_token(tok@),
        },
{
    let n = tok.unicode_len();
    if n == 0 {
        return None;
    }
    let mut nonzero = false;
    let mut i: usize = 0;
    while i < n
        invariant
            i <= n,
            n == tok@.len(),
            forall|j: int| 0 <= j < i ==> '0' <= tok@[j] && tok@[j] <= '9',
            nonzero == exists|j: int| 0 <= j < i && tok@[j] != '0',
        decreases n - i,
    {
        let c = tok.get_char(i);
        if c < '0' || c > '9' {
            return None;
        }
        if c != '0' {
            nonzero = true;
        }
        i = i + 1;
    }
    Some(nonzero)
}

/// Read one line record, as `parse_record` reads it.
pub fn parse_line(line: &str) -> (r: Option<(String, bool)>)
    ensures
        match r {
            Some(p) => parse_record(line@) == Some((p.0@, p.1)),
            None => parse_record(line@) is None,
        },
{
    let toks = tokenize(line);
    if toks.len() != 2 {
        return None;
    }
    match parse_flag(toks[0].as_str()) {
        Some(b) => Some((toks[1].clone(), b)),
        None => None,
    }
}

/// Whether two string slices hold the same character sequence.
pub fn str_eq(a: &str, b: &str) -> (r: bool)
    ensures
        r == (a@ == b@),
{
    let n = a.unicode_len();
    if n != b.unicode_len() {
        return false;
    }
    let mut i: usize = 0;
    while i < n
        invariant
            i <= n,
            n == a@.len(),
            n == b@.len(),
            forall|j: int| 0 <= j < i ==> a@[j] == b@[j],
        decreases n - i,
    {
        if a.get_char(i) != b.get_char(i) {
            return false;
        }
        i = i + 1;
    }
    proof {
        assert(a@ =~= b@);
    }
    true
}

} // verus!
