//! Text helpers shared by the search engine and the navigation state.

use vstd::prelude::*;
use vstd::std_specs::iter::IteratorSpec;

verus! {

/// Appends one character to a string.
///
/// Trusted: wraps `String::push`, which appends the given character to the
/// end of the string and changes nothing else.
#[verifier::external_body]
pub(crate) fn push_char(s: &mut String, c: char)
    ensures
        final(s)@ == old(s)@.push(c),
{
    s.push(c)
}

/// Removes the last character of a string, if there is one.
///
/// Trusted: wraps `String::pop`, which removes the last character and returns
/// it, or returns `None` and leaves the string alone when it is empty.
#[verifier::external_body]
pub(crate) fn pop_char(s: &mut String) -> (last: Option<char>)
    ensures
        old(s)@.len() == 0 ==> last is None && final(s)@ == old(s)@,
        old(s)@.len() > 0 ==> last == Some(old(s)@.last()) && final(s)@ == old(s)@.drop_last(),
{
    s.pop()
}

/// Index just past the last `'/'` among the first `n` characters of `path`
/// (zero when there is none).
pub open spec fn name_start(path: Seq<char>, n: nat) -> nat
    decreases n,
{
    if n == 0 {
        0
    } else if path[n - 1] == '/' {
        n
    } else {
        name_start(path, (n - 1) as nat)
    }
}

/// The last part of a path: what follows its last `'/'`, or the whole path
/// when it has none.
pub open spec fn last_part(path: Seq<char>) -> Seq<char> {
    path.skip(name_start(path, path.len()) as int)
}

/// The last part of a path holds no `'/'`, it ends the path, and it is the
/// whole path or stands behind a `'/'`.
pub proof fn lemma_last_part(path: Seq<char>)
    ensures
        !last_part(path).contains('/'),
        last_part(path).len() <= path.len(),
        path.skip(path.len() - last_part(path).len()) == last_part(path),
        last_part(path).len() == path.len() || path[path.len() - last_part(path).len() - 1]
            == '/',
{
    lemma_name_start(path, path.len());
    let name = last_part(path);
    let start = name_start(path, path.len()) as int;
    assert forall|i: int| 0 <= i < name.len() implies name[i] != '/' by {
        assert(name[i] == path[start + i]);
    }
}

proof fn lemma_name_start(path: Seq<char>, n: nat)
    requires
        n <= path.len(),
    ensures
        name_start(path, n) <= n,
        name_start(path, n) == 0 || path[name_start(path, n) - 1] == '/',
        forall|i: int| name_start(path, n) <= i < n ==> path[i] != '/',
    decreases n,
{
    if n > 0 && path[n - 1] != '/' {
        lemma_name_start(path, (n - 1) as nat);
    }
}

/// A path without what may stand behind its final component and is no part
/// of it: separators at the end, and a `.` behind a separator.
pub open spec fn trimmed(path: Seq<char>) -> Seq<char>
    decreases path.len(),
{
    if path.len() > 0 && path.last() == '/' {
        trimmed(path.drop_last())
    } else if path.len() >= 2 && path.last() == '.' && path[path.len() - 2] == '/' {
        trimmed(path.drop_last())
    } else {
        path
    }
}

/// The final component of a path whose parts are separated by `'/'`: the
/// last part that is neither empty nor `.`. There is none where the path has
/// no such part, and none where that part is `..`.
pub open spec fn final_component(path: Seq<char>) -> Option<Seq<char>> {
    let name = last_part(trimmed(path));
    if name.len() == 0 || name == seq!['.'] || name == seq!['.', '.'] {
        None
    } else {
        Some(name)
    }
}

/// The display name of a path: its final component, or the empty name for a
/// path that has none.
pub open spec fn file_name_of(path: Seq<char>) -> Seq<char> {
    match final_component(path) {
        Some(name) => name,
        None => Seq::empty(),
    }
}

/// A final component is not empty, holds no `'/'`, and is neither `.` nor
/// `..`; and what stands behind it in the path is made of `'/'` and `.`
/// only.
pub proof fn lemma_final_component(path: Seq<char>)
    requires
        final_component(path) is Some,
    ensures
        final_component(path)->0.len() > 0,
        !final_component(path)->0.contains('/'),
        final_component(path)->0 != seq!['.'],
        final_component(path)->0 != seq!['.', '.'],
        trimmed(path).is_prefix_of(path),
        forall|i: int| trimmed(path).len() <= i < path.len() ==> path[i] == '/' || path[i] == '.',
        trimmed(path).skip(trimmed(path).len() - final_component(path)->0.len())
            == final_component(path)->0,
{
    lemma_trimmed(path);
    lemma_last_part(trimmed(path));
}

/// A name is the final component of itself, and of every path that ends in
/// a `'/'` and this name; given that the name is not empty, holds no `'/'`
/// and is neither `.` nor `..`.
pub proof fn lemma_final_component_of_name(dir: Seq<char>, name: Seq<char>)
    requires
        name.len() > 0,
        !name.contains('/'),
        name != seq!['.'],
        name != seq!['.', '.'],
    ensures
        final_component(name) == Some(name),
        final_component(dir.push('/') + name) == Some(name),
{
    let path = dir.push('/') + name;
    assert forall|i: int| 0 <= i < name.len() implies name[i] != '/' by {
        assert(name.contains(name[i]));
    }
    assert(path.last() == name.last());
    if name.len() == 1 {
        assert(name.last() != '.') by {
            if name.last() == '.' {
                assert(name =~= seq!['.']);
            }
        }
    } else {
        assert(path[path.len() - 2] == name[name.len() - 2]);
    }
    assert(trimmed(name) == name);
    assert(trimmed(path) == path);
    lemma_name_start(name, name.len());
    lemma_name_start(path, path.len());
    let alone = name_start(name, name.len());
    if alone > 0 {
        assert(name[alone - 1] == '/');
    }
    assert(last_part(name) =~= name);
    let start = name_start(path, path.len());
    assert(path[dir.len() as int] == '/');
    if start > dir.len() + 1 {
        assert(path[start - 1] == name[start - 1 - dir.len() - 1]);
    }
    assert(start == dir.len() + 1);
    assert(last_part(path) =~= name);
}

proof fn lemma_trimmed(path: Seq<char>)
    ensures
        trimmed(path).is_prefix_of(path),
        forall|i: int| trimmed(path).len() <= i < path.len() ==> path[i] == '/' || path[i] == '.',
    decreases path.len(),
{
    if trimmed(path) != path {
        let front = path.drop_last();
        lemma_trimmed(front);
        assert forall|i: int| trimmed(path).len() <= i < path.len() implies path[i] == '/'
            || path[i] == '.' by {
            if i < front.len() {
                assert(front[i] == path[i]);
            }
        }
    }
}

/// Computes the final component of `path`, if it has one.
pub fn final_name(path: &str) -> (name: Option<String>)
    ensures
        match name {
            Some(text) => final_component(path@) == Some(text@),
            None => final_component(path@) is None,
        },
{
    let chars = chars_of(path);
    let mut end: usize = chars.len();
    assert(path@.take(end as int) =~= path@);
    loop
        invariant
            end <= chars.len(),
            chars@ == path@,
            trimmed(path@) == trimmed(path@.take(end as int)),
        ensures
            end <= chars.len(),
            chars@ == path@,
            trimmed(path@) == path@.take(end as int),
        decreases end,
    {
        let slash = end > 0 && chars[end - 1] == '/';
        let dot = end >= 2 && chars[end - 1] == '.' && chars[end - 2] == '/';
        if !slash && !dot {
            break ;
        }
        assert(path@.take(end as int).drop_last() =~= path@.take(end - 1));
        end = end - 1;
    }
    let ghost stem = path@.take(end as int);
    let mut start: usize = end;
    loop
        invariant
            start <= end <= chars.len(),
            chars@ == path@,
            stem == path@.take(end as int),
            name_start(stem, end as nat) == name_start(stem, start as nat),
        ensures
            start <= end <= chars.len(),
            name_start(stem, end as nat) == start,
        decreases start,
    {
        if start == 0 || chars[start - 1] == '/' {
            break ;
        }
        start = start - 1;
    }
    let ghost name = last_part(stem);
    assert(name =~= chars@.subrange(start as int, end as int));
    let len: usize = end - start;
    if len == 0 {
        None
    } else if len == 1 && chars[start] == '.' {
        assert(name =~= seq!['.']);
        None
    } else if len == 2 && chars[start] == '.' && chars[start + 1] == '.' {
        assert(name =~= seq!['.', '.']);
        None
    } else {
        proof {
            if name == seq!['.'] {
                assert(name.len() == 1 && name[0] == '.');
            }
            if name == seq!['.', '.'] {
                assert(name.len() == 2 && name[0] == '.' && name[1] == '.');
            }
        }
        Some(string_between(&chars, start, end))
    }
}

/// Computes the display name of `path`: its final component, or the empty
/// name where it has none.
pub fn file_name(path: &str) -> (name: String)
    ensures
        name@ == file_name_of(path@),
{
    match final_name(path) {
        Some(name) => name,
        None => String::new(),
    }
}

/// What a tab character becomes in a previewed line.
pub open spec fn tab_run() -> Seq<char> {
    seq![' ', ' ', ' ', ' ']
}

/// A line with every tab character replaced by a run of four spaces; all
/// other characters stay as they are, in order.
pub open spec fn expand_tabs_of(line: Seq<char>) -> Seq<char>
    decreases line.len(),
{
    if line.len() == 0 {
        Seq::empty()
    } else if line.last() == '\t' {
        expand_tabs_of(line.drop_last()) + tab_run()
    } else {
        expand_tabs_of(line.drop_last()).push(line.last())
    }
}

/// A line shown without tabs holds none, and a line that held none is shown
/// as it is.
pub proof fn lemma_expand_tabs_leaves_no_tab(line: Seq<char>)
    ensures
        !expand_tabs_of(line).contains('\t'),
        !line.contains('\t') ==> expand_tabs_of(line) == line,
        expand_tabs_of(line).len() >= line.len(),
    decreases line.len(),
{
    if line.len() > 0 {
        let front = line.drop_last();
        lemma_expand_tabs_leaves_no_tab(front);
        let shown = expand_tabs_of(line);
        let before = expand_tabs_of(front);
        assert forall|i: int| 0 <= i < shown.len() implies shown[i] != '\t' by {
            if i < before.len() {
                assert(shown[i] == before[i]);
                assert(before.contains(before[i]));
            }
        }
        if !line.contains('\t') {
            assert(line.last() == line[line.len() - 1]);
            assert forall|i: int| 0 <= i < front.len() implies front[i] != '\t' by {
                assert(front[i] == line[i]);
            }
            assert(shown =~= line);
        }
    }
}

/// Replaces every tab of `line` by four spaces.
pub fn expand_tabs(line: &str) -> (out: String)
    ensures
        out@ == expand_tabs_of(line@),
{
    let mut out = String::new();
    let mut chars = line.chars();
    let ghost mut seen: nat = 0;
    assert(line@.take(0) =~= Seq::<char>::empty());
    loop
        invariant
            seen <= line@.len(),
            chars.remaining() == line@.skip(seen as int),
            out@ == expand_tabs_of(line@.take(seen as int)),
        ensures
            seen == line@.len(),
            out@ == expand_tabs_of(line@.take(seen as int)),
        decreases line@.len() - seen,
    {
        match chars.next() {
            Some(c) => {
                proof {
                    let next = line@.take(seen as int + 1);
                    assert(next.drop_last() =~= line@.take(seen as int));
                    assert(next.last() == c);
                    seen = seen + 1;
                }
                if c == '\t' {
                    push_char(&mut out, ' ');
                    push_char(&mut out, ' ');
                    push_char(&mut out, ' ');
                    push_char(&mut out, ' ');
                    assert(out@ =~= expand_tabs_of(line@.take(seen as int - 1)) + tab_run());
                } else {
                    push_char(&mut out, c);
                }
            },
            None => {
                break ;
            },
        }
    }
    assert(line@.take(line@.len() as int) =~= line@);
    out
}

/// The characters of a string, one by one.
pub fn chars_of(text: &str) -> (chars: Vec<char>)
    ensures
        chars@ == text@,
{
    let mut out: Vec<char> = Vec::new();
    let mut rest = text.chars();
    let ghost mut seen: nat = 0;
    loop
        invariant
            seen <= text@.len(),
            rest.remaining() == text@.skip(seen as int),
            out@ == text@.take(seen as int),
        ensures
            seen == text@.len(),
            out@ == text@.take(seen as int),
        decreases text@.len() - seen,
    {
        match rest.next() {
            Some(c) => {
                out.push(c);
                proof {
                    assert(out@ =~= text@.take(seen as int + 1));
                    seen = seen + 1;
                }
            },
            None => {
                break ;
            },
        }
    }
    assert(text@.take(text@.len() as int) =~= text@);
    out
}

/// The string made of the characters of `chars` from place `from` up to,
/// not including, place `to`.
pub(crate) fn string_between(chars: &Vec<char>, from: usize, to: usize) -> (out: String)
    requires
        from <= to <= chars.len(),
    ensures
        out@ == chars@.subrange(from as int, to as int),
{
    let mut out = String::new();
    let mut i: usize = from;
    while i < to
        invariant
            from <= i <= to <= chars.len(),
            out@ == chars@.subrange(from as int, i as int),
        decreases to - i,
    {
        push_char(&mut out, chars[i]);
        i = i + 1;
        assert(out@ =~= chars@.subrange(from as int, i as int));
    }
    out
}

/// The character of a digit.
pub open spec fn digit_of(d: nat) -> char {
    ((48 + d) as u8) as char
}

/// A number written in decimal digits, without leading zeros.
pub open spec fn decimal_of(n: nat) -> Seq<char>
    decreases n,
{
    if n < 10 {
        seq![digit_of(n)]
    } else {
        decimal_of(n / 10).push(digit_of(n % 10))
    }
}

/// Writes a number in decimal digits.
pub fn decimal(n: usize) -> (out: String)
    ensures
        out@ == decimal_of(n as nat),
{
    let mut low: Vec<char> = Vec::new();
    let mut rest: usize = n;
    assert(decimal_of(n as nat) + low@.reverse() =~= decimal_of(n as nat));
    while rest >= 10
        invariant
            decimal_of(n as nat) == decimal_of(rest as nat) + low@.reverse(),
        decreases rest,
    {
        let d: u8 = (rest % 10) as u8;
        let ghost before = low@;
        low.push((48u8 + d) as char);
        proof {
            assert(low@.reverse() =~= seq![digit_of((rest % 10) as nat)] + before.reverse());
            assert(decimal_of(rest as nat) == decimal_of((rest / 10) as nat).push(
                digit_of((rest % 10) as nat),
            ));
            assert(decimal_of((rest / 10) as nat).push(digit_of((rest % 10) as nat))
                + before.reverse() =~= decimal_of((rest / 10) as nat) + low@.reverse());
        }
        rest = rest / 10;
    }
    let mut out = String::new();
    push_char(&mut out, (48u8 + rest as u8) as char);
    let mut i: usize = low.len();
    while i > 0
        invariant
            i <= low.len(),
            out@ == decimal_of(rest as nat) + low@.reverse().take(low.len() - i),
        decreases i,
    {
        i = i - 1;
        push_char(&mut out, low[i]);
        assert(out@ =~= decimal_of(rest as nat) + low@.reverse().take(low.len() - i));
    }
    assert(low@.reverse().take(low.len() as int) =~= low@.reverse());
    out
}

/// Appends the characters of `text` to `out`.
pub(crate) fn push_text(out: &mut String, text: &str)
    ensures
        final(out)@ == old(out)@ + text@,
{
    let mut rest = text.chars();
    let ghost mut seen: nat = 0;
    assert(old(out)@ + text@.take(0) =~= old(out)@);
    loop
        invariant
            seen <= text@.len(),
            rest.remaining() == text@.skip(seen as int),
            out@ == old(out)@ + text@.take(seen as int),
        ensures
            seen == text@.len(),
            out@ == old(out)@ + text@.take(seen as int),
        decreases text@.len() - seen,
    {
        match rest.next() {
            Some(c) => {
                push_char(out, c);
                proof {
                    assert(out@ =~= old(out)@ + text@.take(seen as int + 1));
                    seen = seen + 1;
                }
            },
            None => {
                break ;
            },
        }
    }
    assert(text@.take(text@.len() as int) =~= text@);
}

} // verus!
