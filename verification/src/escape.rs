//! The escapes of iCalendar text values.

use crate::text::chars_of;
use vstd::prelude::*;

verus! {

/// How one character is written in a text value.
pub open spec fn escaped_char(c: char) -> Seq<char> {
    if c == '\\' {
        seq!['\\', '\\']
    } else if c == ';' {
        seq!['\\', ';']
    } else if c == ',' {
        seq!['\\', ',']
    } else if c == '\n' {
        seq!['\\', 'n']
    } else {
        seq![c]
    }
}

/// A text as it is written in a text value.
pub open spec fn escaped(s: Seq<char>) -> Seq<char>
    decreases s.len(),
{
    if s.len() == 0 {
        Seq::empty()
    } else {
        escaped_char(s[0]) + escaped(s.skip(1))
    }
}

/// The character that a backslash and `c` stand for.
pub open spec fn escape_meaning(c: char) -> Option<char> {
    if c == '\\' || c == ';' || c == ',' {
        Some(c)
    } else if c == 'n' || c == 'N' {
        Some('\n')
    } else {
        None
    }
}

/// The text that a text value writes. A backslash that begins no escape stands for itself.
pub open spec fn unescaped(s: Seq<char>) -> Seq<char>
    decreases s.len(),
{
    if s.len() == 0 {
        Seq::empty()
    } else if s[0] == '\\' && s.len() >= 2 && escape_meaning(s[1]) is Some {
        seq![escape_meaning(s[1])->0] + unescaped(s.skip(2))
    } else {
        seq![s[0]] + unescaped(s.skip(1))
    }
}

/// Reading a text value gives back the text that was written.
pub proof fn lemma_unescape_inverts_escape(s: Seq<char>)
    ensures
        unescaped(escaped(s)) == s,
    decreases s.len(),
{
    if s.len() > 0 {
        let rest = s.skip(1);
        let tail = escaped(rest);
        lemma_unescape_inverts_escape(rest);
        let all = escaped(s);
        if escaped_char(s[0]).len() == 2 {
            assert(all.skip(2) =~= tail);
        } else {
            assert(all.skip(1) =~= tail);
        }
        assert(unescaped(all) =~= seq![s[0]] + rest);
        assert(s =~= seq![s[0]] + rest);
    }
}

/// A written text value stays on one line.
pub proof fn lemma_escaped_is_one_line(s: Seq<char>)
    ensures
        !escaped(s).contains('\n'),
    decreases s.len(),
{
    if s.len() > 0 {
        lemma_escaped_is_one_line(s.skip(1));
        let head = escaped_char(s[0]);
        let tail = escaped(s.skip(1));
        assert forall|i: int| 0 <= i < escaped(s).len() implies escaped(s)[i] != '\n' by {
            if i >= head.len() {
                assert(escaped(s)[i] == tail[i - head.len()]);
                assert(!tail.contains('\n'));
            }
        }
    }
}

/// Escape special iCalendar text characters (RFC 5545 §3.3.11).
pub fn ics_escape(s: &str) -> (r: String)
    ensures
        r@ == escaped(s@),
{
    let mut r = String::new();
    let cs = chars_of(s);
    let mut i: usize = 0;
    proof {
        assert(s@.skip(0) =~= s@);
        assert(Seq::<char>::empty() + escaped(s@) =~= escaped(s@));
    }
    while i < cs.len()
        invariant
            i <= cs@.len(),
            cs@ == s@,
            escaped(s@) == r@ + escaped(s@.skip(i as int)),
        decreases cs@.len() - i,
    {
        let c = cs[i];
        let ghost before = r@;
        proof {
            assert(s@.skip(i as int)[0] == c);
            assert(s@.skip(i as int).skip(1) =~= s@.skip(i + 1));
        }
        if c == '\\' || c == ';' || c == ',' {
            r.push('\\');
            r.push(c);
        } else if c == '\n' {
            r.push('\\');
            r.push('n');
        } else {
            r.push(c);
        }
        proof {
            assert(r@ =~= before + escaped_char(c));
            assert(before + (escaped_char(c) + escaped(s@.skip(i + 1))) =~= r@ + escaped(
                s@.skip(i + 1),
            ));
        }
        i = i + 1;
    }
    proof {
        assert(r@ + Seq::<char>::empty() =~= r@);
    }
    r
}

/// Undo the escapes of an iCalendar text value.
pub fn ics_unescape(s: &str) -> (r: String)
    ensures
        r@ == unescaped(s@),
{
    let mut r = String::new();
    let cs = chars_of(s);
    let mut i: usize = 0;
    proof {
        assert(s@.skip(0) =~= s@);
        assert(Seq::<char>::empty() + unescaped(s@) =~= unescaped(s@));
    }
    while i < cs.len()
        invariant
            i <= cs@.len(),
            cs@ == s@,
            unescaped(s@) == r@ + unescaped(s@.skip(i as int)),
        decreases cs@.len() - i,
    {
        let c = cs[i];
        let ghost before = r@;
        let ghost rest = s@.skip(i as int);
        proof {
            assert(rest[0] == c);
        }
        let mut meaning: Option<char> = None;
        if c == '\\' && cs.len() - i >= 2 {
            let d = cs[i + 1];
            proof {
                assert(rest[1] == d);
            }
            if d == '\\' || d == ';' || d == ',' {
                meaning = Some(d);
            } else if d == 'n' || d == 'N' {
                meaning = Some('\n');
            }
        }
        match meaning {
            Some(d) => {
                r.push(d);
                proof {
                    assert(rest.skip(2) =~= s@.skip(i + 2));
                    assert(before + (seq![d] + unescaped(s@.skip(i + 2))) =~= r@ + unescaped(
                        s@.skip(i + 2),
                    ));
                }
                i = i + 2;
            },
            None => {
                r.push(c);
                proof {
                    assert(rest.skip(1) =~= s@.skip(i + 1));
                    assert(before + (seq![c] + unescaped(s@.skip(i + 1))) =~= r@ + unescaped(
                        s@.skip(i + 1),
                    ));
                }
                i = i + 1;
            },
        }
    }
    proof {
        assert(r@ + Seq::<char>::empty() =~= r@);
    }
    r
}

} // verus!
