//! Parsing of inbound observer text commands. The only recognized command is
//! `ADDDEV <name>` — the name is everything after the first space, and may
//! itself contain spaces. Anything else is ignored by the session adapter.

use vstd::prelude::*;

use crate::status::str_eq;

verus! {

/// ASCII whitespace, as trimmed from the ends of inbound lines.
pub open spec fn spec_is_ws(c: char) -> bool {
    c == ' ' || c == '\t' || c == '\r' || c == '\n'
}

fn is_ws(c: char) -> (r: bool)
    ensures
        r == spec_is_ws(c),
{
    c == ' ' || c == '\t' || c == '\r' || c == '\n'
}

/// The line without its leading whitespace.
pub open spec fn spec_trim_start(s: Seq<char>) -> Seq<char>
    decreases s.len(),
{
    if s.len() > 0 && spec_is_ws(s[0]) {
        spec_trim_start(s.drop_first())
    } else {
        s
    }
}

/// The line without its trailing whitespace.
pub open spec fn spec_trim_end(s: Seq<char>) -> Seq<char>
    decreases s.len(),
{
    if s.len() > 0 && spec_is_ws(s.last()) {
        spec_trim_end(s.drop_last())
    } else {
        s
    }
}

/// The line without its surrounding whitespace.
pub open spec fn spec_trim(s: Seq<char>) -> Seq<char> {
    spec_trim_end(spec_trim_start(s))
}

/// What an inbound observer line asks for: the name of a device to create,
/// or nothing. After trimming, the line must start with the command word
/// `ADDDEV` followed by one space; the name is the rest of the line. A bare
/// `ADDDEV` without a name is malformed and ignored.
pub open spec fn spec_parse_command(s: Seq<char>) -> Option<Seq<char>> {
    let t = spec_trim(s);
    if t.len() >= 7 && t.subrange(0, 7) == "ADDDEV "@ {
        Some(t.subrange(7, t.len() as int))
    } else {
        None
    }
}

/// Parses one inbound observer line; `Some` holds the device name to create.
pub fn parse_observer_command(line: &str) -> (r: Option<String>)
    ensures
        match r {
            Some(name) => spec_parse_command(line@) == Some(name@),
            None => spec_parse_command(line@) is None,
        },
{
    let n = line.unicode_len();
    let mut b: usize = 0;
    proof {
        assert(line@.subrange(0, n as int) =~= line@);
    }
    while b < n && is_ws(line.get_char(b))
        invariant
            b <= n,
            n == line@.len(),
            spec_trim_start(line@) == spec_trim_start(line@.subrange(b as int, n as int)),
        decreases n - b,
    {
        proof {
            let cur = line@.subrange(b as int, n as int);
            assert(cur[0] == line@[b as int]);
            assert(cur.drop_first() =~= line@.subrange(b + 1, n as int));
        }
        b = b + 1;
    }
    proof {
        let cur = line@.subrange(b as int, n as int);
        if b < n {
            assert(cur[0] == line@[b as int]);
        }
        assert(spec_trim_start(line@) == cur);
    }
    let mut e: usize = n;
    while e > b && is_ws(line.get_char(e - 1))
        invariant
            b <= e <= n,
            n == line@.len(),
            spec_trim_start(line@) == line@.subrange(b as int, n as int),
            spec_trim_end(line@.subrange(b as int, n as int)) == spec_trim_end(
                line@.subrange(b as int, e as int),
            ),
        decreases e - b,
    {
        proof {
            let cur = line@.subrange(b as int, e as int);
            assert(cur.last() == line@[e - 1]);
            assert(cur.drop_last() =~= line@.subrange(b as int, e - 1));
        }
        e = e - 1;
    }
    proof {
        let cur = line@.subrange(b as int, e as int);
        if e > b {
            assert(cur.last() == line@[e - 1]);
        }
        assert(spec_trim(line@) == cur);
    }
    let trimmed = line.substring_char(b, e);
    let tlen: usize = e - b;
    if tlen >= 7 {
        let head = trimmed.substring_char(0, 7);
        if str_eq(head, "ADDDEV ") {
            proof {
                assert(head@ =~= spec_trim(line@).subrange(0, 7));
            }
            let name = trimmed.substring_char(7, tlen);
            proof {
                assert(name@ =~= spec_trim(line@).subrange(7, spec_trim(line@).len() as int));
            }
            Some(name.to_owned())
        } else {
            proof {
                assert(head@ =~= spec_trim(line@).subrange(0, 7));
            }
            None
        }
    } else {
        None
    }
}

} // verus!
