use vstd::prelude::*;
use vstd::std_specs::iter::IteratorSpec;

use crate::error::AppError;

verus! {

/// The Unicode `White_Space` characters, which `trim` removes.
pub open spec fn is_space(c: char) -> bool {
    let u = c as u32;
    (0x09 <= u <= 0x0D) || u == 0x20 || u == 0x85 || u == 0xA0 || u == 0x1680 || (0x2000 <= u
        <= 0x200A) || u == 0x2028 || u == 0x2029 || u == 0x202F || u == 0x205F || u == 0x3000
}

pub fn is_space_char(c: char) -> (r: bool)
    ensures
        r == is_space(c),
{
    let u = c as u32;
    (0x09 <= u && u <= 0x0D) || u == 0x20 || u == 0x85 || u == 0xA0 || u == 0x1680 || (0x2000 <= u
        && u <= 0x200A) || u == 0x2028 || u == 0x2029 || u == 0x202F || u == 0x205F || u == 0x3000
}

/// The text split at every line feed; a text without one is a single line.
pub open spec fn split_lines(s: Seq<char>) -> Seq<Seq<char>>
    decreases s.len(),
{
    if s.len() == 0 {
        seq![Seq::<char>::empty()]
    } else {
        let pre = split_lines(s.drop_last());
        if s.last() == '\n' {
            pre.push(Seq::<char>::empty())
        } else {
            pre.update(pre.len() - 1, pre.last().push(s.last()))
        }
    }
}

/// Where the first `//` at or after `i` starts, or the line's length.
pub open spec fn comment_start(l: Seq<char>, i: int) -> int
    decreases l.len() - i,
{
    if i + 1 >= l.len() {
        l.len() as int
    } else if l[i] == '/' && l[i + 1] == '/' {
        i
    } else {
        comment_start(l, i + 1)
    }
}

/// First index in `[i, e)` that is not white space, or `e`.
pub open spec fn skip_spaces(l: Seq<char>, i: int, e: int) -> int
    decreases e - i,
{
    if i >= e {
        e
    } else if !is_space(l[i]) {
        i
    } else {
        skip_spaces(l, i + 1, e)
    }
}

/// One past the last index in `[s, e)` that is not white space, or `s`.
pub open spec fn trim_end(l: Seq<char>, s: int, e: int) -> int
    decreases e - s,
{
    if e <= s {
        s
    } else if !is_space(l[e - 1]) {
        e
    } else {
        trim_end(l, s, e - 1)
    }
}

/// A line with its comment (from the first `//`) cut off and surrounding
/// white space trimmed.
pub open spec fn clean_line(l: Seq<char>) -> Seq<char> {
    let cut = comment_start(l, 0);
    let s = skip_spaces(l, 0, cut);
    l.subrange(s, trim_end(l, s, cut))
}

/// The cleaned lines that are not empty, in order.
pub open spec fn entries_of(lines: Seq<Seq<char>>) -> Seq<Seq<char>>
    decreases lines.len(),
{
    if lines.len() == 0 {
        Seq::<Seq<char>>::empty()
    } else {
        let pre = entries_of(lines.drop_last());
        let c = clean_line(lines.last());
        if c.len() > 0 {
            pre.push(c)
        } else {
            pre
        }
    }
}

/// The entries of a colorscheme text: one per line that holds anything but
/// white space and a `//` comment.
pub open spec fn colorscheme_entries(content: Seq<char>) -> Seq<Seq<char>> {
    entries_of(split_lines(content))
}

/// The text of each string.
pub open spec fn texts(v: Seq<String>) -> Seq<Seq<char>> {
    v.map_values(|s: String| s@)
}

pub(crate) fn chars_of(s: &str) -> (v: Vec<char>)
    ensures
        v@ == s@,
{
    broadcast use vstd::string::group_string_axioms;

    let mut it = s.chars();
    let mut v: Vec<char> = Vec::new();
    loop
        invariant
            it.obeys_prophetic_iter_laws(),
            v@ + it.remaining() == s@,
            it.decrease() is Some,
        ensures
            v@ == s@,
        decreases it.decrease()->0,
    {
        match it.next() {
            Some(c) => {
                proof {
                    assert(v@.push(c) + it.remaining() =~= v@ + seq![c] + it.remaining());
                }
                v.push(c);
            },
            None => {
                proof {
                    assert(v@ =~= s@);
                }
                break ;
            },
        }
    }
    v
}

/// Bounds `(s, e)` of the cleaned form of the line `chars[ls..le]`.
fn clean_bounds(chars: &Vec<char>, ls: usize, le: usize) -> (r: (usize, usize))
    requires
        ls <= le <= chars@.len(),
    ensures
        ls <= r.0 <= r.1 <= le,
        chars@.subrange(r.0 as int, r.1 as int) == clean_line(chars@.subrange(ls as int, le as int)),
{
    let ghost l = chars@.subrange(ls as int, le as int);
    let mut j = ls;
    while le - j > 1 && !(chars[j] == '/' && chars[j + 1] == '/')
        invariant
            ls <= j <= le,
            le <= chars@.len(),
            l == chars@.subrange(ls as int, le as int),
            comment_start(l, 0) == comment_start(l, j - ls),
        decreases le - j,
    {
        j = j + 1;
    }
    let cut = if le - j > 1 {
        j
    } else {
        le
    };
    let ghost cr = cut - ls;
    assert(comment_start(l, 0) == cr);
    let mut s = ls;
    while s < cut && is_space_char(chars[s])
        invariant
            ls <= s <= cut,
            cut <= le <= chars@.len(),
            l == chars@.subrange(ls as int, le as int),
            cr == cut - ls,
            skip_spaces(l, 0, cr) == skip_spaces(l, s - ls, cr),
        decreases cut - s,
    {
        s = s + 1;
    }
    let ghost sr = s - ls;
    assert(skip_spaces(l, 0, cr) == sr);
    let mut e = cut;
    while e > s && is_space_char(chars[e - 1])
        invariant
            ls <= s <= e <= cut,
            cut <= le <= chars@.len(),
            l == chars@.subrange(ls as int, le as int),
            cr == cut - ls,
            sr == s - ls,
            trim_end(l, sr, cr) == trim_end(l, sr, e - ls),
        decreases e - s,
    {
        e = e - 1;
    }
    assert(trim_end(l, sr, cr) == e - ls);
    assert(chars@.subrange(s as int, e as int) =~= l.subrange(sr, e - ls));
    (s, e)
}

/// Appends the cleaned form of the line `chars[ls..le]` when it is not empty.
fn push_entry(content: &str, chars: &Vec<char>, ls: usize, le: usize, out: &mut Vec<String>)
    requires
        chars@ == content@,
        ls <= le <= chars@.len(),
    ensures
        texts(final(out)@) == if clean_line(chars@.subrange(ls as int, le as int)).len() > 0 {
            texts(old(out)@).push(clean_line(chars@.subrange(ls as int, le as int)))
        } else {
            texts(old(out)@)
        },
{
    let (s, e) = clean_bounds(chars, ls, le);
    if s < e {
        let piece = content.substring_char(s, e);
        let entry = String::from_str(piece);
        let ghost before = out@;
        out.push(entry);
        proof {
            assert(texts(out@) =~= texts(before).push(entry@));
        }
    }
}

/// Reads a colorscheme text: one entry per line, with `//` comments cut off,
/// white space trimmed and empty lines skipped.
pub fn parse_colorscheme(content: &str) -> (r: Vec<String>)
    ensures
        texts(r@) == colorscheme_entries(content@),
{
    let chars = chars_of(content);
    let n = chars.len();
    let mut out: Vec<String> = Vec::new();
    let ghost mut done: Seq<Seq<char>> = Seq::empty();
    let mut ls: usize = 0;
    let mut i: usize = 0;
    proof {
        assert(chars@.subrange(0, 0) =~= Seq::<char>::empty());
        assert(split_lines(Seq::<char>::empty()) == seq![Seq::<char>::empty()]);
        assert(done.push(chars@.subrange(0, 0)) =~= seq![Seq::<char>::empty()]);
        assert(texts(out@) =~= Seq::<Seq<char>>::empty());
    }
    while i < n
        invariant
            chars@ == content@,
            n == chars@.len(),
            ls <= i <= n,
            split_lines(chars@.subrange(0, i as int)) == done.push(
                chars@.subrange(ls as int, i as int),
            ),
            texts(out@) == entries_of(done),
        decreases n - i,
    {
        let ghost t = chars@.subrange(0, i + 1);
        proof {
            assert(t.drop_last() =~= chars@.subrange(0, i as int));
            assert(t.last() == chars@[i as int]);
        }
        if chars[i] == '\n' {
            let ghost line = chars@.subrange(ls as int, i as int);
            push_entry(content, &chars, ls, i, &mut out);
            proof {
                assert(done.push(line).drop_last() =~= done);
                assert(done.push(line).last() == line);
                assert(chars@.subrange(i + 1, i + 1) =~= Seq::<char>::empty());
                done = done.push(line);
            }
            ls = i + 1;
        } else {
            proof {
                let pre = done.push(chars@.subrange(ls as int, i as int));
                assert(chars@.subrange(ls as int, i as int).push(chars@[i as int]) =~= chars@.subrange(
                    ls as int,
                    i + 1,
                ));
                assert(pre.update(pre.len() - 1, pre.last().push(chars@[i as int])) =~= done.push(
                    chars@.subrange(ls as int, i + 1),
                ));
            }
        }
        i = i + 1;
    }
    let ghost line = chars@.subrange(ls as int, n as int);
    push_entry(content, &chars, ls, n, &mut out);
    proof {
        assert(chars@.subrange(0, n as int) =~= chars@);
        assert(done.push(line).drop_last() =~= done);
        assert(done.push(line).last() == line);
    }
    out
}

/// Reads a colorscheme text named `name`; a text with no entry is refused.
pub fn parse_and_validate_colorscheme(content: &str, name: &str) -> (r: Result<
    Vec<String>,
    AppError,
>)
    ensures
        colorscheme_entries(content@).len() == 0 <==> r is Err,
        r matches Ok(v) ==> texts(v@) == colorscheme_entries(content@),
        r matches Err(e) ==> (e matches AppError::Other(m) && m@ == seq!['C', 'o', 'l', 'o', 'r', 's', 'c', 'h', 'e', 'm', 'e', ' ', '\''] + name@ + seq!['\'', ' ', 'i', 's', ' ', 'e', 'm', 'p', 't', 'y']),
{
    let colorscheme = parse_colorscheme(content);
    if colorscheme.len() == 0 {
        let mut m = String::from_str("Colorscheme '");
        m.append(name);
        m.append("' is empty");
        proof {
            reveal_strlit("Colorscheme '");
            reveal_strlit("' is empty");
        }
        Err(AppError::Other(m))
    } else {
        Ok(colorscheme)
    }
}

} // verus!
