//! Rewriting of the indentation-based surface syntax into brace-delimited
//! blocks.
//!
//! Blank lines and comment lines (starting with `//` or `#`) are dropped.
//! A trimmed line that ends in `:` is a section header: it closes the block
//! that is open, if any, and opens a new one. Every other line is copied,
//! trimmed. Only one level of nesting exists.
use vstd::prelude::*;

verus! {

/// The characters with the Unicode `White_Space` property, which is what
/// `char::is_whitespace` and `str::trim` go by.
pub open spec fn is_space(c: char) -> bool {
    let u = c as u32;
    (0x09 <= u && u <= 0x0D) || u == 0x20 || u == 0x85 || u == 0xA0 || u == 0x1680
        || (0x2000 <= u && u <= 0x200A) || u == 0x2028 || u == 0x2029 || u == 0x202F
        || u == 0x205F || u == 0x3000
}

pub open spec fn trim_start(s: Seq<char>) -> Seq<char>
    decreases s.len(),
{
    if s.len() > 0 && is_space(s[0]) {
        trim_start(s.drop_first())
    } else {
        s
    }
}

pub open spec fn trim_end(s: Seq<char>) -> Seq<char>
    decreases s.len(),
{
    if s.len() > 0 && is_space(s.last()) {
        trim_end(s.drop_last())
    } else {
        s
    }
}

/// A line without its leading and trailing white space.
pub open spec fn trim(s: Seq<char>) -> Seq<char> {
    trim_end(trim_start(s))
}

/// The pieces of `s` between line feeds, in order; text that ends in a line
/// feed has an empty last piece. A carriage return before a line feed stays
/// in its piece: it is white space, and every piece is trimmed before use.
pub open spec fn split_lines(s: Seq<char>) -> Seq<Seq<char>>
    decreases s.len(),
{
    if s.len() == 0 {
        seq![Seq::empty()]
    } else {
        let p = split_lines(s.drop_last());
        if s.last() == '\n' {
            p.push(Seq::empty())
        } else {
            p.update(p.len() - 1, p.last().push(s.last()))
        }
    }
}

pub open spec fn is_comment(t: Seq<char>) -> bool {
    (t.len() >= 2 && t[0] == '/' && t[1] == '/') || (t.len() >= 1 && t[0] == '#')
}

/// A trimmed line that is neither blank nor a comment.
pub open spec fn is_kept(t: Seq<char>) -> bool {
    t.len() > 0 && !is_comment(t)
}

/// A trimmed line that opens a section block.
pub open spec fn is_header(t: Seq<char>) -> bool {
    is_kept(t) && t.last() == ':'
}

pub open spec fn close_brace() -> Seq<char> {
    seq!['}', '\n']
}

pub open spec fn open_brace() -> Seq<char> {
    seq![' ', '{', '\n']
}

/// What one line contributes to the output, given whether a block is open.
pub open spec fn emit(line: Seq<char>, open: bool) -> Seq<char> {
    let t = trim(line);
    if !is_kept(t) {
        Seq::empty()
    } else if t.last() == ':' {
        (if open {
            close_brace()
        } else {
            Seq::empty()
        }) + t + open_brace()
    } else {
        t.push('\n')
    }
}

/// Whether a block is open after the given lines: some line was a header.
pub open spec fn opened(ls: Seq<Seq<char>>) -> bool
    decreases ls.len(),
{
    if ls.len() == 0 {
        false
    } else {
        opened(ls.drop_last()) || is_header(trim(ls.last()))
    }
}

/// The output for the given lines, before the final closing brace.
pub open spec fn body(ls: Seq<Seq<char>>) -> Seq<char>
    decreases ls.len(),
{
    if ls.len() == 0 {
        Seq::empty()
    } else {
        body(ls.drop_last()) + emit(ls.last(), opened(ls.drop_last()))
    }
}

/// The brace-delimited form of `s`.
pub open spec fn preprocessed(s: Seq<char>) -> Seq<char> {
    let ls = split_lines(s);
    body(ls) + if opened(ls) {
        close_brace()
    } else {
        Seq::empty()
    }
}

pub proof fn lemma_split_lines_nonempty(s: Seq<char>)
    ensures
        split_lines(s).len() >= 1,
    decreases s.len(),
{
    if s.len() > 0 {
        lemma_split_lines_nonempty(s.drop_last());
    }
}

pub(crate) fn is_space_char(c: char) -> (r: bool)
    ensures
        r == is_space(c),
{
    let u = c as u32;
    (0x09 <= u && u <= 0x0D) || u == 0x20 || u == 0x85 || u == 0xA0 || u == 0x1680 || (0x2000
        <= u && u <= 0x200A) || u == 0x2028 || u == 0x2029 || u == 0x202F || u == 0x205F || u
        == 0x3000
}

/// The characters of `s`, one per element.
pub fn chars_of(s: &str) -> (cs: Vec<char>)
    ensures
        cs@ == s@,
{
    let n = s.unicode_len();
    let mut cs: Vec<char> = Vec::new();
    let mut i: usize = 0;
    while i < n
        invariant
            n == s@.len(),
            i <= n,
            cs@ == s@.subrange(0, i as int),
        decreases n - i,
    {
        cs.push(s.get_char(i));
        i = i + 1;
        assert(cs@ =~= s@.subrange(0, i as int));
    }
    assert(cs@ =~= s@);
    cs
}

/// The bounds of the trimmed part of `cs[start..end]`.
fn trim_bounds(cs: &Vec<char>, start: usize, end: usize) -> (r: (usize, usize))
    requires
        start <= end <= cs@.len(),
    ensures
        start <= r.0 <= r.1 <= end,
        trim(cs@.subrange(start as int, end as int)) == cs@.subrange(r.0 as int, r.1 as int),
{
    let mut ts: usize = start;
    while ts < end && is_space_char(cs[ts])
        invariant
            start <= ts <= end <= cs@.len(),
            trim_start(cs@.subrange(start as int, end as int)) == trim_start(
                cs@.subrange(ts as int, end as int),
            ),
        decreases end - ts,
    {
        assert(cs@.subrange(ts as int, end as int).drop_first() =~= cs@.subrange(
            ts + 1,
            end as int,
        ));
        ts = ts + 1;
    }
    let mut te: usize = end;
    while te > ts && is_space_char(cs[te - 1])
        invariant
            start <= ts <= te <= end <= cs@.len(),
            trim_end(cs@.subrange(ts as int, end as int)) == trim_end(
                cs@.subrange(ts as int, te as int),
            ),
        decreases te - ts,
    {
        assert(cs@.subrange(ts as int, te as int).drop_last() =~= cs@.subrange(
            ts as int,
            te - 1,
        ));
        te = te - 1;
    }
    (ts, te)
}

/// Appends what the line `cs[start..end]` contributes, and records whether a
/// block is open afterwards.
fn emit_line(
    input: &str,
    cs: &Vec<char>,
    start: usize,
    end: usize,
    out: &mut String,
    open: &mut bool,
)
    requires
        cs@ == input@,
        start <= end <= cs@.len(),
    ensures
        final(out)@ == old(out)@ + emit(cs@.subrange(start as int, end as int), *old(open)),
        *final(open) == (*old(open) || is_header(trim(cs@.subrange(start as int, end as int)))),
{
    let ghost line = cs@.subrange(start as int, end as int);
    let (ts, te) = trim_bounds(cs, start, end);
    let ghost t = trim(line);
    assert(t.len() == te - ts);
    if te == ts {
        return ;
    }
    assert(t[0] == cs@[ts as int]);
    assert(t.last() == cs@[te - 1]);
    if cs[ts] == '#' || (te - ts >= 2 && cs[ts] == '/' && cs[ts + 1] == '/') {
        assert(is_comment(t)) by {
            if te - ts >= 2 {
                assert(t[1] == cs@[ts + 1]);
            }
        }
        return ;
    }
    assert(!is_comment(t)) by {
        if t.len() >= 2 {
            assert(t[1] == cs@[ts + 1]);
        }
    }
    if cs[te - 1] == ':' {
        if *open {
            proof {
                reveal_strlit("}\n");
            }
            out.append("}\n");
        }
        out.append(input.substring_char(ts, te));
        proof {
            reveal_strlit(" {\n");
        }
        out.append(" {\n");
        *open = true;
        assert(final(out)@ =~= old(out)@ + emit(line, *old(open)));
    } else {
        out.append(input.substring_char(ts, te));
        proof {
            reveal_strlit("\n");
        }
        out.append("\n");
        assert(final(out)@ =~= old(out)@ + emit(line, *old(open)));
    }
}

/// Rewrites indentation-delimited sections into brace-delimited ones.
pub fn preprocess(input: &str) -> (out: String)
    ensures
        out@ == preprocessed(input@),
{
    let cs = chars_of(input);
    let n = cs.len();
    let mut out = String::new();
    let mut open = false;
    let mut start: usize = 0;
    let mut i: usize = 0;
    let ghost mut done: Seq<Seq<char>> = Seq::empty();
    assert(input@.subrange(0, 0) =~= Seq::<char>::empty());
    assert(split_lines(input@.subrange(0, 0)) =~= done.push(input@.subrange(0, 0)));
    while i < n
        invariant
            cs@ == input@,
            n == cs@.len(),
            start <= i <= n,
            split_lines(input@.subrange(0, i as int)) == done.push(
                input@.subrange(start as int, i as int),
            ),
            out@ == body(done),
            open == opened(done),
        decreases n - i,
    {
        let ghost pre = input@.subrange(0, i as int);
        let ghost next = input@.subrange(0, i + 1);
        assert(next.drop_last() =~= pre);
        assert(next.last() == cs@[i as int]);
        if cs[i] == '\n' {
            let ghost cur = input@.subrange(start as int, i as int);
            emit_line(input, &cs, start, i, &mut out, &mut open);
            proof {
                let d2 = done.push(cur);
                assert(d2.drop_last() =~= done);
                done = d2;
            }
            start = i + 1;
            assert(input@.subrange(start as int, i + 1) =~= Seq::<char>::empty());
        } else {
            assert(input@.subrange(start as int, i + 1) =~= input@.subrange(
                start as int,
                i as int,
            ).push(cs@[i as int]));
            assert(split_lines(next) =~= done.push(input@.subrange(start as int, i + 1)));
        }
        i = i + 1;
    }
    assert(input@.subrange(0, n as int) =~= input@);
    let ghost lines = done.push(input@.subrange(start as int, n as int));
    emit_line(input, &cs, start, n, &mut out, &mut open);
    assert(lines.drop_last() =~= done);
    if open {
        proof {
            reveal_strlit("}\n");
        }
        out.append("}\n");
    }
    out
}

/// The output for lines of which none is a header: each kept line, trimmed,
/// followed by a line feed.
pub open spec fn plain(ls: Seq<Seq<char>>) -> Seq<char>
    decreases ls.len(),
{
    if ls.len() == 0 {
        Seq::empty()
    } else {
        plain(ls.drop_last()) + if is_kept(trim(ls.last())) {
            trim(ls.last()).push('\n')
        } else {
            Seq::empty()
        }
    }
}

/// The pieces joined again, with a line feed between two neighbours.
pub open spec fn join_lines(ls: Seq<Seq<char>>) -> Seq<char>
    decreases ls.len(),
{
    if ls.len() == 0 {
        Seq::empty()
    } else if ls.len() == 1 {
        ls[0]
    } else {
        join_lines(ls.drop_last()).push('\n') + ls.last()
    }
}

pub open spec fn has_no_header(ls: Seq<Seq<char>>) -> bool {
    forall|k: int| 0 <= k < ls.len() ==> !is_header(#[trigger] trim(ls[k]))
}

/// Text whose lines are all kept, already trimmed, none a header, and which
/// ends in a line feed (or is empty).
pub open spec fn is_plain_text(s: Seq<char>) -> bool {
    let ls = split_lines(s);
    &&& ls.last().len() == 0
    &&& forall|k: int|
        0 <= k < ls.len() - 1 ==> is_kept(#[trigger] ls[k]) && trim(ls[k]) == ls[k]
            && ls[k].last() != ':'
}

proof fn lemma_body_plain(ls: Seq<Seq<char>>)
    requires
        has_no_header(ls),
    ensures
        body(ls) == plain(ls),
        !opened(ls),
    decreases ls.len(),
{
    if ls.len() > 0 {
        let p = ls.drop_last();
        assert(has_no_header(p)) by {
            assert forall|k: int| 0 <= k < p.len() implies !is_header(#[trigger] trim(p[k])) by {
                assert(p[k] == ls[k]);
            }
        }
        lemma_body_plain(p);
        assert(!is_header(trim(ls[ls.len() - 1])));
    }
}

proof fn lemma_join_split(s: Seq<char>)
    ensures
        join_lines(split_lines(s)) == s,
    decreases s.len(),
{
    lemma_split_lines_nonempty(s);
    if s.len() > 0 {
        let q = s.drop_last();
        let p = split_lines(q);
        lemma_join_split(q);
        lemma_split_lines_nonempty(q);
        if s.last() == '\n' {
            let ls = p.push(Seq::empty());
            assert(ls.drop_last() =~= p);
            assert(join_lines(ls) =~= s);
        } else {
            let ls = p.update(p.len() - 1, p.last().push(s.last()));
            assert(s =~= q.push(s.last()));
            if p.len() == 1 {
                assert(ls.len() == 1);
                assert(join_lines(ls) == ls[0]);
                assert(join_lines(p) == p[0]);
                assert(join_lines(ls) =~= s);
            } else {
                assert(ls.drop_last() =~= p.drop_last());
                assert(join_lines(ls) =~= s);
            }
        }
    }
}

proof fn lemma_plain_join(ls: Seq<Seq<char>>)
    requires
        forall|k: int| 0 <= k < ls.len() ==> is_kept(#[trigger] ls[k]) && trim(ls[k]) == ls[k],
    ensures
        ls.len() > 0 ==> plain(ls) == join_lines(ls).push('\n'),
        ls.len() == 0 ==> plain(ls) == Seq::<char>::empty(),
    decreases ls.len(),
{
    if ls.len() > 0 {
        let p = ls.drop_last();
        assert forall|k: int| 0 <= k < p.len() implies is_kept(#[trigger] p[k]) && trim(p[k])
            == p[k] by {
            assert(p[k] == ls[k]);
        }
        lemma_plain_join(p);
        assert(trim(ls[ls.len() - 1]) == ls.last());
        if ls.len() == 1 {
            assert(plain(ls) =~= join_lines(ls).push('\n'));
        } else {
            assert(plain(ls) =~= join_lines(ls).push('\n'));
        }
    }
}

/// Text of which no line is a section header gains no brace: the result is
/// its kept lines, trimmed, each followed by a line feed.
pub proof fn lemma_no_header_no_braces(s: Seq<char>)
    requires
        has_no_header(split_lines(s)),
    ensures
        preprocessed(s) == plain(split_lines(s)),
{
    lemma_body_plain(split_lines(s));
    assert(preprocessed(s) =~= plain(split_lines(s)));
}

/// Text already in that form (every line kept and trimmed, no header, a line
/// feed at the end) is left unchanged.
pub proof fn lemma_plain_text_unchanged(s: Seq<char>)
    requires
        is_plain_text(s),
    ensures
        preprocessed(s) == s,
{
    let ls = split_lines(s);
    lemma_split_lines_nonempty(s);
    let p = ls.drop_last();
    assert(has_no_header(ls)) by {
        assert forall|k: int| 0 <= k < ls.len() implies !is_header(#[trigger] trim(ls[k])) by {
            if k < ls.len() - 1 {
            } else {
                assert(ls[k] =~= Seq::<char>::empty());
                assert(trim_start(ls[k]) == ls[k]);
                assert(trim_end(ls[k]) == ls[k]);
            }
        }
    }
    lemma_no_header_no_braces(s);
    assert forall|k: int| 0 <= k < p.len() implies is_kept(#[trigger] p[k]) && trim(p[k])
        == p[k] by {
        assert(p[k] == ls[k]);
    }
    lemma_plain_join(p);
    lemma_join_split(s);
    let e = ls.last();
    assert(trim_start(e) == e);
    assert(trim_end(e) == e);
    assert(plain(ls) == plain(p));
    if ls.len() == 1 {
        assert(s =~= Seq::<char>::empty());
    } else {
        assert(join_lines(ls) =~= join_lines(p).push('\n'));
    }
}

} // verus!
