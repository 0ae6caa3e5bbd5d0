//! Wire format of a log record.
//!
//! A record is one line of the form `[<timestamp>] <message>`, terminated by
//! a newline and optionally carrying a carriage return before it. The
//! timestamp part is everything between the opening bracket and the first
//! closing bracket; the message is the rest of the line. A line that does not
//! have this shape is not a record and is dropped by the tailer.

use vstd::prelude::*;

verus! {

/// Index of the first occurrence of `c` in `s`; `s.len()` when `c` is absent.
pub open spec fn first_pos(s: Seq<char>, c: char) -> nat
    decreases s.len(),
{
    if s.len() == 0 {
        0
    } else if s[0] == c {
        0
    } else {
        1 + first_pos(s.subrange(1, s.len() as int), c)
    }
}

pub proof fn lemma_first_pos(s: Seq<char>, c: char)
    ensures
        0 <= first_pos(s, c) <= s.len(),
        first_pos(s, c) < s.len() ==> s[first_pos(s, c) as int] == c,
        forall|i: int| 0 <= i < first_pos(s, c) ==> s[i] != c,
    decreases s.len(),
{
    if s.len() == 0 {
    } else if s[0] == c {
    } else {
        let t = s.subrange(1, s.len() as int);
        lemma_first_pos(t, c);
        assert forall|i: int| 0 <= i < first_pos(s, c) implies s[i] != c by {
            if i > 0 {
                assert(t[i - 1] == s[i]);
            }
        }
    }
}

/// Where the message part of a well-formed record ends: before the final
/// newline, and also before a carriage return just ahead of it, unless the
/// message would then be empty.
pub open spec fn wire_msg_end(s: Seq<char>) -> int {
    let j = first_pos(s, ']') as int;
    if s.len() - 1 - (j + 2) >= 2 && s[s.len() - 2] == '\r' {
        s.len() - 2
    } else {
        s.len() - 1
    }
}

/// Whether `s` is a well-formed record: an opening bracket, a non-empty
/// timestamp free of closing brackets, `] `, a non-empty message free of
/// newlines, and a final newline.
pub open spec fn wire_parses(s: Seq<char>) -> bool {
    let j = first_pos(s, ']') as int;
    &&& s.len() >= 2
    &&& s[0] == '['
    &&& s[s.len() - 1] == '\n'
    &&& j < s.len()
    &&& j >= 2
    &&& j + 2 < s.len() - 1
    &&& s[j + 1] == ' '
    &&& forall|i: int| j + 2 <= i < s.len() - 1 ==> s[i] != '\n'
}

/// The timestamp part of a well-formed record.
pub open spec fn wire_date(s: Seq<char>) -> Seq<char> {
    s.subrange(1, first_pos(s, ']') as int)
}

/// The message part of a well-formed record.
pub open spec fn wire_msg(s: Seq<char>) -> Seq<char> {
    s.subrange(first_pos(s, ']') as int + 2, wire_msg_end(s))
}

/// Splits one line into its timestamp and message parts, or reports that the
/// line is not a well-formed record.
pub fn parse(line: &str) -> (r: Option<(&str, &str)>)
    ensures
        r is Some <==> wire_parses(line@),
        r is Some ==> r.unwrap().0@ == wire_date(line@),
        r is Some ==> r.unwrap().1@ == wire_msg(line@),
{
    let n = line.unicode_len();
    proof {
        lemma_first_pos(line@, ']');
    }
    if n < 2 {
        return None;
    }
    if line.get_char(0) != '[' {
        return None;
    }
    if line.get_char(n - 1) != '\n' {
        return None;
    }
    let mut j: usize = 0;
    while j < n && line.get_char(j) != ']'
        invariant
            j <= n,
            n == line@.len(),
            forall|i: int| 0 <= i < j ==> line@[i] != ']',
        decreases n - j,
    {
        j += 1;
    }
    proof {
        let fp = first_pos(line@, ']') as int;
        if j < n {
            assert(line@[j as int] == ']');
            assert(fp == j) by {
                if fp < j {
                    assert(line@[fp] != ']');
                } else if fp > j {
                    assert(line@[j as int] != ']');
                }
            }
        } else {
            assert(fp == j) by {
                if fp < j {
                    assert(line@[fp] == ']');
                    assert(line@[fp] != ']');
                }
            }
        }
    }
    if j >= n {
        return None;
    }
    if j < 2 {
        return None;
    }
    if j + 2 >= n - 1 {
        return None;
    }
    if line.get_char(j + 1) != ' ' {
        return None;
    }
    let mut k: usize = j + 2;
    while k < n - 1
        invariant
            j + 2 <= k <= n - 1,
            n == line@.len(),
            first_pos(line@, ']') == j,
            forall|i: int| j + 2 <= i < k ==> line@[i] != '\n',
        decreases n - k,
    {
        if line.get_char(k) == '\n' {
            return None;
        }
        k += 1;
    }
    let msg_end: usize = if n - 1 - (j + 2) >= 2 && line.get_char(n - 2) == '\r' {
        n - 2
    } else {
        n - 1
    };
    let date = line.substring_char(1, j);
    let msg = line.substring_char(j + 2, msg_end);
    Some((date, msg))
}

} // verus!
