//! Placeholders in template text.
//!
//! A template body may hold `{name}`, which stands for the value that the
//! caller bound to `name`, and `{{name}}`, which stands for the literal text
//! `{name}`. A name is a non-empty run of characters without braces. The
//! text is read once, from left to right; what a placeholder is replaced by
//! is not read again.

use vstd::prelude::*;
use crate::text::chars_of;
use crate::token::{find_key, key_index, Attributes};

verus! {

/// Whether `c` is one of the two braces.
pub open spec fn is_brace(c: char) -> bool {
    c == '{' || c == '}'
}

/// How many characters stand at the start of `s` before its first brace.
pub open spec fn name_len(s: Seq<char>) -> nat
    decreases s.len(),
{
    if s.len() == 0 || is_brace(s[0]) {
        0
    } else {
        1 + name_len(s.skip(1))
    }
}

/// The value that `attrs` binds to `key`: that of the first pair with this
/// key, if there is one.
pub open spec fn binding(attrs: Seq<(Seq<char>, Seq<char>)>, key: Seq<char>) -> Option<
    Seq<char>,
> {
    match key_index(attrs, key) {
        Some(i) => Some(attrs[i].1),
        None => None,
    }
}

/// The name inside an escaped placeholder `{{name}}` at the start of `s`.
pub open spec fn escaped_name(s: Seq<char>) -> Option<Seq<char>> {
    if s.len() >= 2 && s[0] == '{' && s[1] == '{' {
        let n = name_len(s.skip(2)) as int;
        if n > 0 && s.len() >= n + 4 && s[2 + n] == '}' && s[3 + n] == '}' {
            Some(s.subrange(2, 2 + n))
        } else {
            None
        }
    } else {
        None
    }
}

/// The name inside a placeholder `{name}` at the start of `s`. A closing
/// brace that is followed by a second one closes no placeholder.
pub open spec fn placeholder_name(s: Seq<char>) -> Option<Seq<char>> {
    if s.len() >= 1 && s[0] == '{' {
        let n = name_len(s.skip(1)) as int;
        if n > 0 && s.len() >= n + 2 && s[1 + n] == '}' && !(s.len() > n + 2 && s[2 + n]
            == '}') {
            Some(s.subrange(1, 1 + n))
        } else {
            None
        }
    } else {
        None
    }
}

/// The value that replaces a placeholder at the start of `s`: there is one,
/// and `attrs` binds its name.
pub open spec fn placeholder_value(s: Seq<char>, attrs: Seq<(Seq<char>, Seq<char>)>) -> Option<
    Seq<char>,
> {
    match placeholder_name(s) {
        Some(name) => binding(attrs, name),
        None => None,
    }
}

/// `s` with its placeholders replaced: `{{name}}` by `{name}`, `{name}` by
/// the value bound to `name` where `attrs` binds one, everything else kept.
pub open spec fn substituted(s: Seq<char>, attrs: Seq<(Seq<char>, Seq<char>)>) -> Seq<char>
    decreases s.len(),
{
    if s.len() == 0 {
        Seq::empty()
    } else if escaped_name(s) is Some {
        let name = escaped_name(s)->Some_0;
        seq!['{'] + name + seq!['}'] + substituted(s.skip(name.len() as int + 4), attrs)
    } else if placeholder_value(s, attrs) is Some {
        let name = placeholder_name(s)->Some_0;
        placeholder_value(s, attrs)->Some_0 + substituted(s.skip(name.len() as int + 2), attrs)
    } else {
        seq![s[0]] + substituted(s.skip(1), attrs)
    }
}

/// Counts the characters from `from` up to the next brace or the end.
fn run_length(chars: &Vec<char>, from: usize) -> (n: usize)
    requires
        from <= chars.len(),
    ensures
        n == name_len(chars@.skip(from as int)),
        from + n <= chars.len(),
{
    let mut end: usize = from;
    while end < chars.len() && chars[end] != '{' && chars[end] != '}'
        invariant
            from <= end <= chars.len(),
            name_len(chars@.skip(from as int)) == (end - from) + name_len(
                chars@.skip(end as int),
            ),
        decreases chars.len() - end,
    {
        assert(chars@.skip(end as int).skip(1) == chars@.skip(end + 1));
        end = end + 1;
    }
    end - from
}

/// The characters of `chars` from `from` up to `to`, as a string.
fn slice_text(chars: &Vec<char>, from: usize, to: usize) -> (s: String)
    requires
        from <= to <= chars.len(),
    ensures
        s@ == chars@.subrange(from as int, to as int),
{
    let mut s = String::new();
    let mut i: usize = from;
    while i < to
        invariant
            from <= i <= to <= chars.len(),
            s@ == chars@.subrange(from as int, i as int),
        decreases to - i,
    {
        s.push(chars[i]);
        assert(chars@.subrange(from as int, i + 1) == chars@.subrange(from as int, i as int).push(
            chars@[i as int],
        ));
        i = i + 1;
    }
    s
}

/// Looks up the value bound to `key`.
pub fn lookup<'a>(attrs: &'a Attributes, key: &str) -> (value: Option<&'a String>)
    ensures
        match value {
            Some(v) => binding(attrs.deep_view(), key@) == Some(v@),
            None => binding(attrs.deep_view(), key@) is None,
        },
{
    match find_key(attrs, key) {
        Some(i) => Some(&attrs[i].1),
        None => None,
    }
}

/// Tells whether an escaped placeholder starts at `i`, and how long its
/// name is.
fn escaped_at(chars: &Vec<char>, i: usize) -> (found: Option<usize>)
    requires
        i < chars.len(),
    ensures
        match found {
            Some(n) => {
                &&& n > 0
                &&& i + n + 4 <= chars.len()
                &&& escaped_name(chars@.skip(i as int)) == Some(
                    chars@.subrange(i + 2, i + 2 + n),
                )
            },
            None => escaped_name(chars@.skip(i as int)) is None,
        },
{
    let len = chars.len();
    let ghost rest = chars@.skip(i as int);
    if chars[i] == '{' && i + 1 < len && chars[i + 1] == '{' {
        let n = run_length(chars, i + 2);
        assert(rest.skip(2) == chars@.skip(i + 2));
        if n > 0 && len - i > 3 && n < len - i - 3 && chars[i + 2 + n] == '}' && chars[i + 3 + n]
            == '}' {
            assert(rest.subrange(2, 2 + n) == chars@.subrange(i + 2, i + 2 + n));
            Some(n)
        } else {
            None
        }
    } else {
        None
    }
}

/// Tells whether a placeholder starts at `i`, and how long its name is.
fn placeholder_at(chars: &Vec<char>, i: usize) -> (found: Option<usize>)
    requires
        i < chars.len(),
    ensures
        match found {
            Some(n) => {
                &&& n > 0
                &&& i + n + 2 <= chars.len()
                &&& placeholder_name(chars@.skip(i as int)) == Some(
                    chars@.subrange(i + 1, i + 1 + n),
                )
            },
            None => placeholder_name(chars@.skip(i as int)) is None,
        },
{
    let len = chars.len();
    let ghost rest = chars@.skip(i as int);
    if chars[i] == '{' {
        let n = run_length(chars, i + 1);
        assert(rest.skip(1) == chars@.skip(i + 1));
        if n > 0 && n + 1 < len - i && chars[i + 1 + n] == '}' && !(n + 2 < len - i && chars[i
            + 2 + n] == '}') {
            assert(rest.subrange(1, 1 + n) == chars@.subrange(i + 1, i + 1 + n));
            Some(n)
        } else {
            None
        }
    } else {
        None
    }
}

/// What stands for the text at `i`, and how many characters of the text it
/// stands for.
fn replacement_at(chars: &Vec<char>, attrs: &Attributes, i: usize) -> (piece: (String, usize))
    requires
        i < chars.len(),
    ensures
        1 <= piece.1 <= chars.len() - i,
        substituted(chars@.skip(i as int), attrs.deep_view()) == piece.0@ + substituted(
            chars@.skip(i + piece.1),
            attrs.deep_view(),
        ),
{
    let ghost rest = chars@.skip(i as int);
    let mut piece = String::new();
    match escaped_at(chars, i) {
        Some(n) => {
            let name = slice_text(chars, i + 2, i + 2 + n);
            piece.push('{');
            piece.append(name.as_str());
            piece.push('}');
            assert(piece@ =~= seq!['{'] + name@ + seq!['}']);
            assert(rest.skip(n + 4) == chars@.skip(i + n + 4));
            return (piece, n + 4);
        },
        None => {},
    }
    match placeholder_at(chars, i) {
        Some(n) => {
            let name = slice_text(chars, i + 1, i + 1 + n);
            match lookup(attrs, name.as_str()) {
                Some(value) => {
                    piece.append(value.as_str());
                    assert(piece@ =~= value@);
                    assert(rest.skip(n + 2) == chars@.skip(i + n + 2));
                    return (piece, n + 2);
                },
                None => {},
            }
        },
        None => {},
    }
    piece.push(chars[i]);
    assert(piece@ =~= seq![rest[0]]);
    assert(rest.skip(1) == chars@.skip(i + 1));
    (piece, 1)
}

/// Replaces the placeholders of `text` by what `attrs` binds to them.
pub fn replace_template_attributes(text: &str, attrs: &Attributes) -> (out: String)
    ensures
        out@ == substituted(text@, attrs.deep_view()),
{
    let chars = chars_of(text);
    let ghost s = text@;
    let ghost a = attrs.deep_view();
    let mut out = String::new();
    let mut i: usize = 0;
    assert(s.skip(0) == s);
    assert(out@ + substituted(s, a) == substituted(s, a));
    while i < chars.len()
        invariant
            i <= chars.len(),
            chars@ == s,
            a == attrs.deep_view(),
            out@ + substituted(s.skip(i as int), a) == substituted(s, a),
        decreases chars.len() - i,
    {
        let ghost before = out@;
        let (piece, step) = replacement_at(&chars, attrs, i);
        out.append(piece.as_str());
        assert(out@ + substituted(s.skip(i + step), a) == before + (piece@ + substituted(
            s.skip(i + step),
            a,
        )));
        i = i + step;
    }
    assert(s.skip(i as int).len() == 0);
    assert(out@ + Seq::<char>::empty() == out@);
    out
}

} // verus!
