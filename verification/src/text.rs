//! Text rules: the shape of an email address, and the rendering of message
//! patterns with named placeholders.

use vstd::prelude::*;
use vstd::std_specs::iter::IteratorSpec;

verus! {

/// `String::push` appends the given character to the end of the string.
pub assume_specification[ String::push ](s: &mut String, ch: char)
    ensures
        final(s)@ == old(s)@.push(ch),
;

/// Whitespace that may not occur in an email address.
pub open spec fn is_blank(c: char) -> bool {
    c == ' ' || c == '\t' || c == '\n' || c == '\r'
}

/// `at` and `dot` witness that `s` has the shape of an email address:
/// exactly one `@`, with something before it; a `.` somewhere after it with
/// something on both sides; and no whitespace anywhere.
pub open spec fn email_shape(s: Seq<char>, at: int, dot: int) -> bool {
    &&& 0 < at
    &&& at + 1 < dot
    &&& dot + 1 < s.len()
    &&& s[at] == '@'
    &&& s[dot] == '.'
    &&& forall|i: int| 0 <= i < s.len() ==> !is_blank(#[trigger] s[i]) && (s[i] == '@' ==> i == at)
}

/// Whether `s` is an acceptable email address.
pub open spec fn is_valid_email(s: Seq<char>) -> bool {
    exists|at: int, dot: int| email_shape(s, at, dot)
}

/// The characters of a string, in order.
pub fn chars_of(s: &str) -> (out: Vec<char>)
    ensures
        out@ == s@,
{
    let mut out: Vec<char> = Vec::new();
    let mut it = s.chars();
    loop
        invariant
            out@ + it.remaining() == s@,
            it.obeys_prophetic_iter_laws(),
            it.decrease() is Some,
        decreases it.decrease()->0,
    {
        let ghost before = it;
        match it.next() {
            Some(c) => {
                assert(out@.push(c) + it.remaining() =~= out@ + before.remaining());
                out.push(c);
            },
            None => {
                assert(out@ + it.remaining() =~= out@);
                return out;
            },
        }
    }
}

/// Checks the shape of an email address.
pub fn check_email(s: &str) -> (ok: bool)
    ensures
        ok == is_valid_email(s@),
{
    let chars = chars_of(s);
    let n = chars.len();
    let mut at: usize = 0;
    let mut seen: bool = false;
    let mut i: usize = 0;
    while i < n
        invariant
            i <= n,
            n == chars@.len(),
            chars@ == s@,
            forall|k: int| 0 <= k < i ==> !is_blank(#[trigger] chars@[k]),
            seen ==> at < i && chars@[at as int] == '@',
            forall|k: int| 0 <= k < i && #[trigger] chars@[k] == '@' ==> seen && k == at,
        decreases n - i,
    {
        let c = chars[i];
        if c == ' ' || c == '\t' || c == '\n' || c == '\r' {
            assert(is_blank(s@[i as int]));
            return false;
        }
        if c == '@' {
            if seen {
                assert forall|a: int, d: int| !email_shape(s@, a, d) by {
                    if email_shape(s@, a, d) {
                        assert(s@[at as int] == '@');
                        assert(s@[i as int] == '@');
                    }
                }
                return false;
            }
            seen = true;
            at = i;
        }
        i = i + 1;
    }
    if !seen || at == 0 {
        assert forall|a: int, d: int| !email_shape(s@, a, d) by {
            if email_shape(s@, a, d) {
                assert(s@[a] == '@');
            }
        }
        return false;
    }
    if n < 3 || at > n - 3 {
        assert forall|a: int, d: int| !email_shape(s@, a, d) by {
            if email_shape(s@, a, d) {
                assert(s@[a] == '@');
            }
        }
        return false;
    }
    let mut j: usize = at + 2;
    while j < n - 1
        invariant
            0 < at,
            at + 2 <= j <= n - 1,
            n == chars@.len(),
            chars@ == s@,
            chars@[at as int] == '@',
            forall|k: int| 0 <= k < n ==> !is_blank(#[trigger] chars@[k]),
            forall|k: int| 0 <= k < n && #[trigger] chars@[k] == '@' ==> k == at,
            forall|k: int| at + 2 <= k < j ==> #[trigger] chars@[k] != '.',
        decreases n - j,
    {
        if chars[j] == '.' {
            assert(email_shape(s@, at as int, j as int));
            return true;
        }
        j = j + 1;
    }
    assert forall|a: int, d: int| !email_shape(s@, a, d) by {
        if email_shape(s@, a, d) {
            assert(s@[a] == '@');
            assert(a == at);
            assert(chars@[d] == '.');
        }
    }
    false
}

/// The value that a placeholder name stands for, if the name is known:
/// `name` for the client's name, `email` for the client's address.
pub open spec fn placeholder_value(key: Seq<char>, name: Seq<char>, email: Seq<char>) -> Option<
    Seq<char>,
> {
    if key == "name"@ {
        Some(name)
    } else if key == "email"@ {
        Some(email)
    } else {
        None
    }
}

/// The index of the first `}` at or after `from`, or the pattern's length
/// if there is none.
pub open spec fn close_index(p: Seq<char>, from: int) -> int
    decreases p.len() - from,
{
    if from < 0 || from >= p.len() {
        p.len() as int
    } else if p[from] == '}' {
        from
    } else {
        close_index(p, from + 1)
    }
}

/// The rendering of the pattern from index `i` on. A `{`, a known
/// placeholder name and a `}` are replaced by the value the name stands
/// for; every other character is copied.
pub open spec fn render_from(p: Seq<char>, i: int, name: Seq<char>, email: Seq<char>) -> Seq<char>
    decreases p.len() - i,
{
    if i < 0 || i >= p.len() {
        Seq::empty()
    } else {
        let j = close_index(p, i + 1);
        if p[i] == '{' && i + 1 <= j < p.len() && placeholder_value(
            p.subrange(i + 1, j),
            name,
            email,
        ) is Some {
            placeholder_value(p.subrange(i + 1, j), name, email)->0 + render_from(
                p,
                j + 1,
                name,
                email,
            )
        } else {
            seq![p[i]] + render_from(p, i + 1, name, email)
        }
    }
}

/// The rendering of a whole pattern for a client's name and address.
pub open spec fn render_text(p: Seq<char>, name: Seq<char>, email: Seq<char>) -> Seq<char> {
    render_from(p, 0, name, email)
}

/// Whether two string slices hold the same characters.
fn same_text(a: &str, b: &str) -> (same: bool)
    ensures
        same == (a@ == b@),
{
    String::from_str(a) == String::from_str(b)
}

/// Renders a pattern for a client's name and address.
pub fn render(pattern: &str, name: &str, email: &str) -> (out: String)
    ensures
        out@ == render_text(pattern@, name@, email@),
{
    let p = chars_of(pattern);
    let n = p.len();
    let mut out = String::new();
    let mut i: usize = 0;
    while i < n
        invariant
            i <= n,
            n == p@.len(),
            p@ == pattern@,
            out@ + render_from(p@, i as int, name@, email@) == render_text(
                pattern@,
                name@,
                email@,
            ),
        decreases n - i,
    {
        let c = p[i];
        let ghost rest = render_from(p@, i as int, name@, email@);
        let mut replaced = false;
        let mut next: usize = i + 1;
        if c == '{' {
            let mut j: usize = i + 1;
            while j < n && p[j] != '}'
                invariant
                    i + 1 <= j <= n,
                    n == p@.len(),
                    close_index(p@, j as int) == close_index(p@, i + 1),
                decreases n - j,
            {
                j = j + 1;
            }
            if j < n {
                let key = pattern.substring_char(i + 1, j);
                if same_text(key, "name") {
                    out.append(name);
                    replaced = true;
                    next = j + 1;
                } else if same_text(key, "email") {
                    out.append(email);
                    replaced = true;
                    next = j + 1;
                }
            }
        }
        if !replaced {
            out.push(c);
        }
        assert(out@ + render_from(p@, next as int, name@, email@) =~= render_text(
            pattern@,
            name@,
            email@,
        ));
        i = next;
    }
    assert(out@ + Seq::<char>::empty() =~= out@);
    out
}

} // verus!
