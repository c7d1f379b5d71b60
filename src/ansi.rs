use vstd::prelude::*;

use vstd::std_specs::iter::IteratorSpec;

use crate::strings::push_char;

verus! {

/// The escape character that opens a terminal control sequence.
pub const ESC: char = '\x1b';

pub open spec fn is_ascii_letter(c: char) -> bool {
    ('a' <= c && c <= 'z') || ('A' <= c && c <= 'Z')
}

/// The visible text of `s` from index `i` on, outside any control sequence.
/// An escape followed by `[` opens a control sequence; an escape followed by
/// anything else is dropped on its own.
pub open spec fn visible_from(s: Seq<char>, i: int) -> Seq<char>
    decreases s.len() - i, 1int,
{
    if i < 0 || i >= s.len() {
        Seq::empty()
    } else if s[i] == ESC {
        if i + 1 < s.len() && s[i + 1] == '[' {
            sequence_tail_from(s, i + 2)
        } else {
            visible_from(s, i + 1)
        }
    } else {
        seq![s[i]] + visible_from(s, i + 1)
    }
}

/// The visible text of `s` from index `i` on, inside a control sequence: the
/// sequence runs up to and including the first ASCII letter.
pub open spec fn sequence_tail_from(s: Seq<char>, i: int) -> Seq<char>
    decreases s.len() - i, 0int,
{
    if i < 0 || i >= s.len() {
        Seq::empty()
    } else if is_ascii_letter(s[i]) {
        visible_from(s, i + 1)
    } else {
        sequence_tail_from(s, i + 1)
    }
}

/// `s` with its terminal escape sequences removed.
pub open spec fn strip_ansi_spec(s: Seq<char>) -> Seq<char> {
    visible_from(s, 0)
}

/// The characters of `s`, in order.
fn chars_of(s: &str) -> (r: Vec<char>)
    ensures
        r@ == s@,
{
    broadcast use vstd::string::axiom_spec_iter, vstd::string::next_postcondition;

    let mut it = s.chars();
    let mut out: Vec<char> = Vec::new();
    loop
        invariant
            out@ + IteratorSpec::remaining(&it) == s@,
            IteratorSpec::decrease(&it) is Some,
        ensures
            out@ == s@,
        decreases IteratorSpec::decrease(&it)->0,
    {
        match it.next() {
            Some(c) => out.push(c),
            None => {
                assert(out@ + IteratorSpec::remaining(&it) =~= out@);
                break;
            },
        }
    }
    out
}

fn is_ascii_letter_exec(c: char) -> (r: bool)
    ensures
        r == is_ascii_letter(c),
{
    ('a' <= c && c <= 'z') || ('A' <= c && c <= 'Z')
}

/// Removes terminal escape sequences (an escape, `[`, and everything up to and
/// including the next ASCII letter) and lone escape characters from `s`.
pub fn strip_ansi(s: &str) -> (r: String)
    ensures
        r@ == strip_ansi_spec(s@),
{
    let chars = chars_of(s);
    let n = chars.len();
    let mut result = String::new();
    let mut i: usize = 0;
    while i < n
        invariant
            n == chars@.len(),
            chars@ == s@,
            i <= n,
            strip_ansi_spec(s@) == result@ + visible_from(s@, i as int),
        decreases n - i,
    {
        let c = chars[i];
        if c == ESC {
            if i + 1 < n && chars[i + 1] == '[' {
                let mut j: usize = i + 2;
                while j < n && !is_ascii_letter_exec(chars[j])
                    invariant
                        n == chars@.len(),
                        chars@ == s@,
                        i + 2 <= j <= n,
                        visible_from(s@, i as int) == sequence_tail_from(s@, j as int),
                    decreases n - j,
                {
                    j += 1;
                }
                if j < n {
                    j += 1;
                }
                i = j;
            } else {
                i += 1;
            }
        } else {
            let ghost prev = result@;
            push_char(&mut result, c);
            assert(prev + visible_from(s@, i as int) =~= result@ + visible_from(s@, i + 1));
            i += 1;
        }
    }
    result
}

} // verus!
