//! The section language, read after preprocessing.
//!
//! The text is split into words at white space. A section is
//! `<kind> "<id>": { <statement>* }`, the kind one of `beam`, `column`,
//! `wall`. The statements are:
//!
//! - `<W> x <H>`: a rectangle `W` wide and `H` high;
//! - `cover <n>`, `fc <n>`, `span <n>`, `scale <n>` (both scales),
//!   `scale_section <n>`, `scale_long <n>`;
//! - `view section`, `view long`, `view both`;
//! - `top <count> <size>`, `bot <count> <size>`, `perim <count> <size>`;
//! - `ties <size> <spacing>+`, each spacing `<count>@<n>` or `rto@<n>`.
//!
//! A number `<n>` is `[0-9]+(.[0-9]+)?`; a count is `[0-9]+` that fits in
//! 32 bits; a size is `#[0-9]+`, `[0-9]+/[0-9]+"` or `[0-9]+"`. A later
//! statement of a property replaces an earlier one; rebar lines accumulate.
use vstd::prelude::*;
use vstd::view::View as _;
use crate::ast::{
    PropsModel,
    RebarEntry,
    RebarPattern,
    Section,
    SectionModel,
    SectionProperties,
    SectionType,
    Shape,
    ShapeModel,
    Spacing,
    SpacingModel,
    StirrupsConfig,
};
use crate::ast;
use crate::preprocess::{chars_of, is_space, is_space_char, preprocess, preprocessed};

verus! {

// ----- words -----

/// The words of `s` so far, and whether the last one may still grow.
pub open spec fn word_state(s: Seq<char>) -> (Seq<Seq<char>>, bool)
    decreases s.len(),
{
    if s.len() == 0 {
        (Seq::empty(), false)
    } else {
        let (ws, open) = word_state(s.drop_last());
        let c = s.last();
        if is_space(c) {
            (ws, false)
        } else if open && ws.len() > 0 {
            (ws.update(ws.len() - 1, ws.last().push(c)), true)
        } else {
            (ws.push(seq![c]), true)
        }
    }
}

/// The maximal runs of non-white-space characters of `s`, in order.
pub open spec fn words(s: Seq<char>) -> Seq<Seq<char>> {
    word_state(s).0
}

// ----- lexical classes -----

pub open spec fn is_digit(c: char) -> bool {
    '0' <= c && c <= '9'
}

pub open spec fn all_digits(s: Seq<char>) -> bool {
    s.len() > 0 && forall|i: int| 0 <= i < s.len() ==> is_digit(#[trigger] s[i])
}

/// Digits with at most one `sep` between two of them.
pub open spec fn is_numeral(s: Seq<char>, sep: char) -> bool {
    &&& s.len() > 0
    &&& is_digit(s[0])
    &&& is_digit(s.last())
    &&& forall|i: int| 0 <= i < s.len() ==> is_digit(#[trigger] s[i]) || s[i] == sep
    &&& forall|i: int, j: int| 0 <= i < j < s.len() && #[trigger] s[i] == sep ==> #[trigger] s[j] != sep
}

/// A decimal number: `[0-9]+(.[0-9]+)?`.
pub open spec fn is_number(s: Seq<char>) -> bool {
    is_numeral(s, '.')
}

pub open spec fn digits_value(s: Seq<char>) -> int
    decreases s.len(),
{
    if s.len() == 0 {
        0
    } else {
        digits_value(s.drop_last()) * 10 + (s.last() as int - '0' as int)
    }
}

/// A count: digits whose value fits in 32 bits.
pub open spec fn is_count(s: Seq<char>) -> bool {
    all_digits(s) && digits_value(s) <= u32::MAX
}

/// A bar-size designator: `#N`, `a/b"` or `a"`.
pub open spec fn is_size(s: Seq<char>) -> bool {
    (s.len() >= 2 && s[0] == '#' && all_digits(s.drop_first())) || (s.len() >= 2 && s.last()
        == '"' && is_numeral(s.drop_last(), '/'))
}

/// The index of the first `c` in `s`, or its length.
pub open spec fn first_index(s: Seq<char>, c: char) -> int
    decreases s.len(),
{
    if s.len() == 0 {
        0
    } else if s[0] == c {
        0
    } else {
        1 + first_index(s.drop_first(), c)
    }
}

/// A spacing token: `<count>@<n>` or `rto@<n>`.
pub open spec fn spacing_of(w: Seq<char>) -> Option<SpacingModel> {
    let p = first_index(w, '@');
    let left = w.subrange(0, p);
    let right = w.subrange(p + 1, w.len() as int);
    if p >= w.len() || !is_number(right) {
        None
    } else if left == "rto"@ {
        Some(SpacingModel::Rest(right))
    } else if is_count(left) {
        Some(SpacingModel::Fixed(digits_value(left) as u32, right))
    } else {
        None
    }
}

pub open spec fn kind_of(w: Seq<char>) -> Option<SectionType> {
    if w == "beam"@ {
        Some(SectionType::Beam)
    } else if w == "column"@ {
        Some(SectionType::Column)
    } else if w == "wall"@ {
        Some(SectionType::Wall)
    } else {
        None
    }
}

pub open spec fn view_of(w: Seq<char>) -> Option<ast::View> {
    if w == "section"@ {
        Some(ast::View::Section)
    } else if w == "long"@ {
        Some(ast::View::Longitudinal)
    } else if w == "both"@ {
        Some(ast::View::Both)
    } else {
        None
    }
}

pub open spec fn pattern_of(w: Seq<char>) -> Option<RebarPattern> {
    if w == "top"@ {
        Some(RebarPattern::Top)
    } else if w == "bot"@ {
        Some(RebarPattern::Bottom)
    } else if w == "perim"@ {
        Some(RebarPattern::Perimeter)
    } else {
        None
    }
}

/// The label of a header word `"<id>":`, an id without double quotes.
pub open spec fn header_id(w: Seq<char>) -> Option<Seq<char>> {
    if w.len() >= 3 && w[0] == '"' && w[w.len() - 2] == '"' && w.last() == ':' && (forall|i: int|
        1 <= i < w.len() - 2 ==> #[trigger] w[i] != '"') {
        Some(w.subrange(1, w.len() - 2))
    } else {
        None
    }
}

// ----- statements and sections -----

pub open spec fn empty_props() -> PropsModel {
    PropsModel {
        shape: None,
        cover: None,
        span: None,
        view: None,
        scale_section: None,
        scale_long: None,
        concrete: None,
        rebar: Seq::empty(),
        ties: None,
    }
}

/// The spacing tokens from word `k` on, up to the first word that is none.
pub open spec fn spacing_run(ws: Seq<Seq<char>>, k: int) -> Seq<SpacingModel>
    decreases ws.len() - k,
{
    if 0 <= k < ws.len() && spacing_of(ws[k]) is Some {
        seq![spacing_of(ws[k])->0] + spacing_run(ws, k + 1)
    } else {
        Seq::empty()
    }
}

/// The statement at word `k`: the properties after it and the next word's
/// index, or `None` if no statement starts there.
pub open spec fn step(ws: Seq<Seq<char>>, k: int, p: PropsModel) -> Option<(PropsModel, int)> {
    let w = ws[k];
    let n = ws.len();
    if w == "cover"@ || w == "fc"@ || w == "span"@ || w == "scale"@ || w == "scale_section"@
        || w == "scale_long"@ {
        if k + 1 < n && is_number(ws[k + 1]) {
            let v = Some(ws[k + 1]);
            let q = if w == "cover"@ {
                PropsModel { cover: v, ..p }
            } else if w == "fc"@ {
                PropsModel { concrete: v, ..p }
            } else if w == "span"@ {
                PropsModel { span: v, ..p }
            } else if w == "scale"@ {
                PropsModel { scale_section: v, scale_long: v, ..p }
            } else if w == "scale_section"@ {
                PropsModel { scale_section: v, ..p }
            } else {
                PropsModel { scale_long: v, ..p }
            };
            Some((q, k + 2))
        } else {
            None
        }
    } else if w == "view"@ {
        if k + 1 < n && view_of(ws[k + 1]) is Some {
            Some((PropsModel { view: view_of(ws[k + 1]), ..p }, k + 2))
        } else {
            None
        }
    } else if pattern_of(w) is Some {
        if k + 2 < n && is_count(ws[k + 1]) && is_size(ws[k + 2]) {
            let e = (pattern_of(w)->0, digits_value(ws[k + 1]) as u32, ws[k + 2]);
            Some((PropsModel { rebar: p.rebar.push(e), ..p }, k + 3))
        } else {
            None
        }
    } else if w == "ties"@ {
        let run = spacing_run(ws, k + 2);
        if k + 1 < n && is_size(ws[k + 1]) && run.len() > 0 {
            Some((PropsModel { ties: Some((ws[k + 1], run)), ..p }, k + 2 + run.len()))
        } else {
            None
        }
    } else if is_number(w) && k + 2 < n && ws[k + 1] == "x"@ && is_number(ws[k + 2]) {
        Some((PropsModel { shape: Some(ShapeModel::Rect(w, ws[k + 2])), ..p }, k + 3))
    } else {
        None
    }
}

/// The statements from word `k` up to and including the closing `}`.
pub open spec fn parse_body(ws: Seq<Seq<char>>, k: int, p: PropsModel) -> Option<
    (PropsModel, int),
>
    decreases ws.len() - k,
{
    if k < 0 || k >= ws.len() {
        None
    } else if ws[k] == "}"@ {
        Some((p, k + 1))
    } else {
        match step(ws, k, p) {
            Some((q, j)) => if k < j <= ws.len() {
                parse_body(ws, j, q)
            } else {
                None
            },
            None => None,
        }
    }
}

/// The section that starts at word `i`, and the index of the word after it.
pub open spec fn parse_section(ws: Seq<Seq<char>>, i: int) -> Option<(SectionModel, int)> {
    if 0 <= i && i + 3 <= ws.len() && kind_of(ws[i]) is Some && header_id(ws[i + 1]) is Some
        && ws[i + 2] == "{"@ {
        match parse_body(ws, i + 3, empty_props()) {
            Some((p, j)) => Some(
                (SectionModel { kind: kind_of(ws[i])->0, id: header_id(ws[i + 1])->0, props: p }, j),
            ),
            None => None,
        }
    } else {
        None
    }
}

/// The sections from word `i` to the end.
pub open spec fn parse_sections(ws: Seq<Seq<char>>, i: int) -> Option<Seq<SectionModel>>
    decreases ws.len() - i,
{
    if i < 0 {
        None
    } else if i >= ws.len() {
        Some(Seq::empty())
    } else {
        match parse_section(ws, i) {
            Some((s, j)) => if i < j <= ws.len() {
                match parse_sections(ws, j) {
                    Some(rest) => Some(seq![s] + rest),
                    None => None,
                }
            } else {
                None
            },
            None => None,
        }
    }
}

/// The sections that a document describes, if it is well formed.
pub open spec fn parsed(input: Seq<char>) -> Option<Seq<SectionModel>> {
    parse_sections(words(preprocessed(input)), 0)
}

// ----- executable reading -----

/// Word `k` of `ws` is `cs[spans[k].0 .. spans[k].1]`.
pub open spec fn spans_match(cs: Seq<char>, spans: Seq<(usize, usize)>, ws: Seq<Seq<char>>) -> bool {
    &&& spans.len() == ws.len()
    &&& forall|k: int|
        0 <= k < spans.len() ==> (#[trigger] spans[k]).0 <= spans[k].1 <= cs.len() && ws[k]
            == cs.subrange(spans[k].0 as int, spans[k].1 as int)
}

/// The bounds of the words of `cs`.
fn split_words(cs: &Vec<char>) -> (spans: Vec<(usize, usize)>)
    ensures
        spans_match(cs@, spans@, words(cs@)),
{
    let mut spans: Vec<(usize, usize)> = Vec::new();
    let mut open = false;
    let mut i: usize = 0;
    while i < cs.len()
        invariant
            i <= cs@.len(),
            spans_match(cs@, spans@, word_state(cs@.subrange(0, i as int)).0),
            open == word_state(cs@.subrange(0, i as int)).1,
            forall|k: int| 0 <= k < spans@.len() ==> (#[trigger] spans@[k]).1 <= i,
            open ==> spans@.len() > 0 && spans@.last().1 == i,
        decreases cs@.len() - i,
    {
        let c = cs[i];
        let ghost pre = cs@.subrange(0, i as int);
        let ghost next = cs@.subrange(0, i + 1);
        let ghost ws = word_state(pre).0;
        assert(next.drop_last() =~= pre);
        assert(next.last() == c);
        if is_space_char(c) {
            open = false;
        } else if open {
            let last = spans.len() - 1;
            let a = spans[last].0;
            spans.set(last, (a, i + 1));
            proof {
                let nws = word_state(next).0;
                assert(nws == ws.update(ws.len() - 1, ws.last().push(c)));
                assert forall|k: int| 0 <= k < spans@.len() implies (#[trigger] spans@[k]).0
                    <= spans@[k].1 <= cs@.len() && nws[k] == cs@.subrange(
                    spans@[k].0 as int,
                    spans@[k].1 as int,
                ) by {
                    if k == last {
                        assert(cs@.subrange(a as int, i + 1) =~= cs@.subrange(
                            a as int,
                            i as int,
                        ).push(c));
                    }
                }
            }
            open = true;
        } else {
            spans.push((i, i + 1));
            open = true;
            proof {
                let nws = word_state(next).0;
                assert(nws == ws.push(seq![c]));
                assert(cs@.subrange(i as int, i + 1) =~= seq![c]);
                assert forall|k: int| 0 <= k < spans@.len() implies (#[trigger] spans@[k]).0
                    <= spans@[k].1 <= cs@.len() && nws[k] == cs@.subrange(
                    spans@[k].0 as int,
                    spans@[k].1 as int,
                ) by {
                    if k < spans@.len() - 1 {
                        assert(nws[k] == ws[k]);
                    }
                }
            }
        }
        i = i + 1;
    }
    assert(cs@.subrange(0, cs@.len() as int) =~= cs@);
    spans
}

/// Whether `cs[a..b]` holds exactly the characters of `lit`.
fn word_is(cs: &Vec<char>, a: usize, b: usize, lit: &str) -> (r: bool)
    requires
        a <= b <= cs@.len(),
    ensures
        r == (cs@.subrange(a as int, b as int) == lit@),
{
    let ghost w = cs@.subrange(a as int, b as int);
    let n = lit.unicode_len();
    if b - a != n {
        return false;
    }
    let mut i: usize = 0;
    while i < n
        invariant
            n == lit@.len(),
            n == b - a,
            a <= b <= cs@.len(),
            w == cs@.subrange(a as int, b as int),
            i <= n,
            forall|j: int| 0 <= j < i ==> w[j] == lit@[j],
        decreases n - i,
    {
        if cs[a + i] != lit.get_char(i) {
            assert(w[i as int] != lit@[i as int]);
            return false;
        }
        i = i + 1;
    }
    assert(w =~= lit@);
    true
}

fn is_digit_char(c: char) -> (r: bool)
    ensures
        r == is_digit(c),
{
    '0' <= c && c <= '9'
}

/// Whether `cs[a..b]` is digits with at most one `sep` between two digits.
fn check_numeral(cs: &Vec<char>, a: usize, b: usize, sep: char) -> (r: bool)
    requires
        a <= b <= cs@.len(),
        !is_digit(sep),
    ensures
        r == is_numeral(cs@.subrange(a as int, b as int), sep),
{
    let ghost w = cs@.subrange(a as int, b as int);
    if a == b || !is_digit_char(cs[a]) || !is_digit_char(cs[b - 1]) {
        return false;
    }
    let mut seen: usize = b;
    let mut i: usize = a;
    while i < b
        invariant
            a < b <= cs@.len(),
            w == cs@.subrange(a as int, b as int),
            !is_digit(sep),
            a <= i <= b,
            seen == b || (a <= seen < i && cs@[seen as int] == sep),
            forall|j: int| a <= j < i ==> is_digit(#[trigger] cs@[j]) || cs@[j] == sep,
            forall|j: int| a <= j < i && j != seen ==> #[trigger] cs@[j] != sep,
        decreases b - i,
    {
        let c = cs[i];
        if c == sep {
            if seen < b {
                assert(w[seen - a] == sep && w[i - a] == sep);
                return false;
            }
            seen = i;
        } else if !is_digit_char(c) {
            assert(!(is_digit(w[i - a]) || w[i - a] == sep));
            return false;
        }
        i = i + 1;
    }
    assert forall|x: int, y: int| 0 <= x < y < w.len() && #[trigger] w[x] == sep implies #[trigger] w[y]
        != sep by {
        assert(w[x] == cs@[a + x] && w[y] == cs@[a + y]);
    }
    assert forall|x: int| 0 <= x < w.len() implies is_digit(#[trigger] w[x]) || w[x] == sep by {
        assert(w[x] == cs@[a + x]);
    }
    true
}

/// Whether `cs[a..b]` is all digits (and not empty).
fn check_digits(cs: &Vec<char>, a: usize, b: usize) -> (r: bool)
    requires
        a <= b <= cs@.len(),
    ensures
        r == all_digits(cs@.subrange(a as int, b as int)),
{
    let ghost w = cs@.subrange(a as int, b as int);
    if a == b {
        return false;
    }
    let mut i: usize = a;
    while i < b
        invariant
            a <= i <= b <= cs@.len(),
            w == cs@.subrange(a as int, b as int),
            forall|j: int| 0 <= j < i - a ==> is_digit(#[trigger] w[j]),
        decreases b - i,
    {
        if !is_digit_char(cs[i]) {
            assert(!is_digit(w[i - a]));
            return false;
        }
        i = i + 1;
    }
    true
}

/// The value of the count `cs[a..b]`, if it is one.
fn read_count(cs: &Vec<char>, a: usize, b: usize) -> (r: Option<u32>)
    requires
        a <= b <= cs@.len(),
    ensures
        r == (if is_count(cs@.subrange(a as int, b as int)) {
            Some(digits_value(cs@.subrange(a as int, b as int)) as u32)
        } else {
            None
        }),
{
    let ghost w = cs@.subrange(a as int, b as int);
    if !check_digits(cs, a, b) {
        return None;
    }
    let mut acc: u64 = 0;
    let mut big = false;
    let mut i: usize = a;
    assert(w.subrange(0, 0) =~= Seq::<char>::empty());
    while i < b
        invariant
            a <= i <= b <= cs@.len(),
            w == cs@.subrange(a as int, b as int),
            all_digits(w),
            big ==> digits_value(w.subrange(0, i - a)) > u32::MAX,
            !big ==> acc == digits_value(w.subrange(0, i - a)) && acc <= u32::MAX,
        decreases b - i,
    {
        let ghost pre = w.subrange(0, i - a);
        let ghost next = w.subrange(0, i - a + 1);
        assert(next.drop_last() =~= pre);
        assert(next.last() == cs@[i as int]);
        assert(is_digit(w[i - a]));
        let d = (cs[i] as u32 - '0' as u32) as u64;
        if !big {
            acc = acc * 10 + d;
            if acc > 0xFFFF_FFFF {
                big = true;
            }
        }
        proof {
            if big {
                assert(digits_value(next) >= digits_value(pre) * 10);
            }
        }
        i = i + 1;
    }
    assert(w.subrange(0, b - a) =~= w);
    if big {
        None
    } else {
        Some(acc as u32)
    }
}

/// Whether `cs[a..b]` is a bar-size designator.
fn check_size(cs: &Vec<char>, a: usize, b: usize) -> (r: bool)
    requires
        a <= b <= cs@.len(),
    ensures
        r == is_size(cs@.subrange(a as int, b as int)),
{
    let ghost w = cs@.subrange(a as int, b as int);
    if b - a < 2 {
        return false;
    }
    if cs[a] == '#' {
        assert(w.drop_first() =~= cs@.subrange(a + 1, b as int));
        assert(w.last() == cs@[b - 1]);
        assert(w.drop_last() =~= cs@.subrange(a as int, b - 1));
        let r = check_digits(cs, a + 1, b);
        if r {
            return true;
        }
        assert(cs@[b - 1] == '"' ==> !is_numeral(w.drop_last(), '/')) by {
            assert(w.drop_last()[0] == '#');
        }
        return false;
    }
    if cs[b - 1] != '"' {
        return false;
    }
    assert(w.drop_last() =~= cs@.subrange(a as int, b - 1));
    check_numeral(cs, a, b - 1, '/')
}

/// `a` plus the index of the first `c` in `cs[a..b]`, or `b`.
fn find_char(cs: &Vec<char>, a: usize, b: usize, c: char) -> (r: usize)
    requires
        a <= b <= cs@.len(),
    ensures
        r == a + first_index(cs@.subrange(a as int, b as int), c),
        a <= r <= b,
{
    let mut i: usize = a;
    while i < b && cs[i] != c
        invariant
            a <= i <= b <= cs@.len(),
            first_index(cs@.subrange(a as int, b as int), c) == (i - a) + first_index(
                cs@.subrange(i as int, b as int),
                c,
            ),
        decreases b - i,
    {
        assert(cs@.subrange(i as int, b as int).drop_first() =~= cs@.subrange(i + 1, b as int));
        i = i + 1;
    }
    proof {
        if i == b {
            assert(cs@.subrange(i as int, b as int).len() == 0);
        }
    }
    i
}

/// The characters `cs[a..b]` as a string.
fn word_text(text: &str, cs: &Vec<char>, a: usize, b: usize) -> (s: String)
    requires
        cs@ == text@,
        a <= b <= cs@.len(),
    ensures
        s@ == cs@.subrange(a as int, b as int),
{
    String::from_str(text.substring_char(a, b))
}

/// The spacing token `cs[a..b]`, if it is one.
fn read_spacing(text: &str, cs: &Vec<char>, a: usize, b: usize) -> (r: Option<Spacing>)
    requires
        cs@ == text@,
        a <= b <= cs@.len(),
    ensures
        (r is Some) == (spacing_of(cs@.subrange(a as int, b as int)) is Some),
        r is Some ==> r->0.model() == spacing_of(cs@.subrange(a as int, b as int))->0,
{
    let ghost w = cs@.subrange(a as int, b as int);
    let p = find_char(cs, a, b, '@');
    if p >= b {
        return None;
    }
    assert(w.subrange(0, p - a) =~= cs@.subrange(a as int, p as int));
    assert(w.subrange(p - a + 1, w.len() as int) =~= cs@.subrange(p + 1, b as int));
    if !check_numeral(cs, p + 1, b, '.') {
        return None;
    }
    let dist = word_text(text, cs, p + 1, b);
    if word_is(cs, a, p, "rto") {
        return Some(Spacing::Rest { dist });
    }
    match read_count(cs, a, p) {
        Some(count) => Some(Spacing::Fixed { count, dist }),
        None => None,
    }
}

/// The label in the header word `cs[a..b]`, if it is one.
fn read_header(text: &str, cs: &Vec<char>, a: usize, b: usize) -> (r: Option<String>)
    requires
        cs@ == text@,
        a <= b <= cs@.len(),
    ensures
        (r is Some) == (header_id(cs@.subrange(a as int, b as int)) is Some),
        r is Some ==> r->0@ == header_id(cs@.subrange(a as int, b as int))->0,
{
    let ghost w = cs@.subrange(a as int, b as int);
    if b - a < 3 || cs[a] != '"' || cs[b - 2] != '"' || cs[b - 1] != ':' {
        return None;
    }
    let mut i: usize = a + 1;
    while i < b - 2
        invariant
            a + 3 <= b <= cs@.len(),
            a + 1 <= i <= b - 2,
            w == cs@.subrange(a as int, b as int),
            forall|j: int| 1 <= j < i - a ==> #[trigger] w[j] != '"',
        decreases b - i,
    {
        if cs[i] == '"' {
            assert(w[i - a] == '"');
            return None;
        }
        i = i + 1;
    }
    let id = word_text(text, cs, a + 1, b - 2);
    assert(id@ =~= w.subrange(1, w.len() - 2));
    Some(id)
}

/// Performs the statement at word `k` on `props`; the index of the next word.
fn exec_step(
    text: &str,
    cs: &Vec<char>,
    spans: &Vec<(usize, usize)>,
    k: usize,
    props: &mut SectionProperties,
) -> (r: Option<usize>)
    requires
        cs@ == text@,
        spans_match(cs@, spans@, words(cs@)),
        k < spans@.len(),
    ensures
        match step(words(cs@), k as int, old(props).model()) {
            Some((p, j)) => r == Some(j as usize) && final(props).model() == p && 0 <= j <= spans@.len(),
            None => r is None,
        },
{
    let ghost ws = words(cs@);
    let ghost p = props.model();
    let n = spans.len();
    let (a, b) = spans[k];
    assert(ws[k as int] == cs@.subrange(a as int, b as int));
    if word_is(cs, a, b, "cover") || word_is(cs, a, b, "fc") || word_is(cs, a, b, "span")
        || word_is(cs, a, b, "scale") || word_is(cs, a, b, "scale_section") || word_is(
        cs,
        a,
        b,
        "scale_long",
    ) {
        if k + 1 >= n {
            return None;
        }
        let (a1, b1) = spans[k + 1];
        assert(ws[k + 1] == cs@.subrange(a1 as int, b1 as int));
        if !check_numeral(cs, a1, b1, '.') {
            return None;
        }
        let v = word_text(text, cs, a1, b1);
        if word_is(cs, a, b, "cover") {
            props.cover = Some(v);
        } else if word_is(cs, a, b, "fc") {
            props.concrete = Some(v);
        } else if word_is(cs, a, b, "span") {
            props.span = Some(v);
        } else if word_is(cs, a, b, "scale") {
            props.scale_section = Some(v.clone());
            props.scale_long = Some(v);
        } else if word_is(cs, a, b, "scale_section") {
            props.scale_section = Some(v);
        } else {
            props.scale_long = Some(v);
        }
        return Some(k + 2);
    }
    if word_is(cs, a, b, "view") {
        if k + 1 >= n {
            return None;
        }
        let (a1, b1) = spans[k + 1];
        assert(ws[k + 1] == cs@.subrange(a1 as int, b1 as int));
        let view = if word_is(cs, a1, b1, "section") {
            ast::View::Section
        } else if word_is(cs, a1, b1, "long") {
            ast::View::Longitudinal
        } else if word_is(cs, a1, b1, "both") {
            ast::View::Both
        } else {
            return None;
        };
        props.view = Some(view);
        return Some(k + 2);
    }
    let pattern = if word_is(cs, a, b, "top") {
        Some(RebarPattern::Top)
    } else if word_is(cs, a, b, "bot") {
        Some(RebarPattern::Bottom)
    } else if word_is(cs, a, b, "perim") {
        Some(RebarPattern::Perimeter)
    } else {
        None
    };
    if let Some(pattern) = pattern {
        if n - k <= 2 {
            return None;
        }
        let (a1, b1) = spans[k + 1];
        let (a2, b2) = spans[k + 2];
        assert(ws[k + 1] == cs@.subrange(a1 as int, b1 as int));
        assert(ws[k + 2] == cs@.subrange(a2 as int, b2 as int));
        let count = match read_count(cs, a1, b1) {
            Some(c) => c,
            None => return None,
        };
        if !check_size(cs, a2, b2) {
            return None;
        }
        let size = word_text(text, cs, a2, b2);
        let ghost before = props.rebar@;
        props.rebar.push(RebarEntry { pattern, count, size });
        assert(props.rebar@.map_values(|e: RebarEntry| e.model()) =~= before.map_values(
            |e: RebarEntry| e.model(),
        ).push((pattern, count, cs@.subrange(a2 as int, b2 as int))));
        return Some(k + 3);
    }
    if word_is(cs, a, b, "ties") {
        if k + 1 >= n {
            return None;
        }
        let (a1, b1) = spans[k + 1];
        assert(ws[k + 1] == cs@.subrange(a1 as int, b1 as int));
        if !check_size(cs, a1, b1) {
            return None;
        }
        let mut dist: Vec<Spacing> = Vec::new();
        let mut j: usize = k + 2;
        let mut stop = false;
        while j < n && !stop
            invariant
                cs@ == text@,
                spans_match(cs@, spans@, ws),
                ws == words(cs@),
                n == spans@.len(),
                k + 2 <= j <= n,
                j == k + 2 + dist@.len(),
                k + 1 < n,
                spans@[k + 1] == (a1, b1),
                is_size(cs@.subrange(a1 as int, b1 as int)),
                props.model() == p,
                spacing_run(ws, k + 2) == dist@.map_values(|s: Spacing| s.model()) + spacing_run(
                    ws,
                    j as int,
                ),
                stop ==> spacing_run(ws, j as int).len() == 0,
            decreases n - j + if stop { 0int } else { 1int },
        {
            let (aj, bj) = spans[j];
            assert(ws[j as int] == cs@.subrange(aj as int, bj as int));
            match read_spacing(text, cs, aj, bj) {
                Some(sp) => {
                    let ghost before = dist@;
                    dist.push(sp);
                    assert(dist@.map_values(|s: Spacing| s.model()) =~= before.map_values(
                        |s: Spacing| s.model(),
                    ).push(sp.model()));
                    j = j + 1;
                },
                None => {
                    stop = true;
                },
            }
        }
        if dist.len() == 0 {
            return None;
        }
        let size = word_text(text, cs, a1, b1);
        assert(spacing_run(ws, k + 2) =~= dist@.map_values(|s: Spacing| s.model()));
        props.ties = Some(StirrupsConfig { size, dist });
        return Some(j);
    }
    if !check_numeral(cs, a, b, '.') || n - k <= 2 {
        return None;
    }
    let (a1, b1) = spans[k + 1];
    let (a2, b2) = spans[k + 2];
    assert(ws[k + 1] == cs@.subrange(a1 as int, b1 as int));
    assert(ws[k + 2] == cs@.subrange(a2 as int, b2 as int));
    if !word_is(cs, a1, b1, "x") || !check_numeral(cs, a2, b2, '.') {
        return None;
    }
    let width = word_text(text, cs, a, b);
    let height = word_text(text, cs, a2, b2);
    props.shape = Some(Shape::Rect { width, height });
    Some(k + 3)
}

/// Performs the statements from word `k` up to the closing `}` on `props`;
/// the index of the word after the `}`.
fn exec_body(
    text: &str,
    cs: &Vec<char>,
    spans: &Vec<(usize, usize)>,
    k: usize,
    props: &mut SectionProperties,
) -> (r: Option<usize>)
    requires
        cs@ == text@,
        spans_match(cs@, spans@, words(cs@)),
    ensures
        match parse_body(words(cs@), k as int, old(props).model()) {
            Some((p, j)) => r == Some(j as usize) && final(props).model() == p && 0 <= j <= spans@.len(),
            None => r is None,
        },
{
    let ghost ws = words(cs@);
    let ghost want = parse_body(ws, k as int, props.model());
    let n = spans.len();
    let mut i: usize = k;
    while i < n
        invariant
            cs@ == text@,
            spans_match(cs@, spans@, ws),
            ws == words(cs@),
            n == spans@.len(),
            want == parse_body(ws, i as int, props.model()),
            want == parse_body(ws, k as int, old(props).model()),
        decreases n - i,
    {
        let (a, b) = spans[i];
        assert(ws[i as int] == cs@.subrange(a as int, b as int));
        if word_is(cs, a, b, "}") {
            assert(ws[i as int] == "}"@);
            return Some(i + 1);
        }
        match exec_step(text, cs, spans, i, props) {
            Some(j) => {
                if j <= i {
                    return None;
                }
                i = j;
            },
            None => {
                return None;
            },
        }
    }
    None
}

/// The section that starts at word `i`, and the index of the word after it.
fn exec_section(text: &str, cs: &Vec<char>, spans: &Vec<(usize, usize)>, i: usize) -> (r: Option<
    (Section, usize),
>)
    requires
        cs@ == text@,
        spans_match(cs@, spans@, words(cs@)),
    ensures
        match parse_section(words(cs@), i as int) {
            Some((s, j)) => j <= spans@.len() && match r {
                Some((sec, e)) => sec.model() == s && e == j,
                None => false,
            },
            None => r is None,
        },
{
    let ghost ws = words(cs@);
    let n = spans.len();
    if i >= n || n - i < 3 {
        return None;
    }
    let (a0, b0) = spans[i];
    let (a1, b1) = spans[i + 1];
    let (a2, b2) = spans[i + 2];
    assert(ws[i as int] == cs@.subrange(a0 as int, b0 as int));
    assert(ws[i + 1] == cs@.subrange(a1 as int, b1 as int));
    assert(ws[i + 2] == cs@.subrange(a2 as int, b2 as int));
    let kind = if word_is(cs, a0, b0, "beam") {
        SectionType::Beam
    } else if word_is(cs, a0, b0, "column") {
        SectionType::Column
    } else if word_is(cs, a0, b0, "wall") {
        SectionType::Wall
    } else {
        return None;
    };
    let id = match read_header(text, cs, a1, b1) {
        Some(id) => id,
        None => return None,
    };
    if !word_is(cs, a2, b2, "{") {
        return None;
    }
    let mut properties = SectionProperties {
        shape: None,
        cover: None,
        span: None,
        view: None,
        scale_section: None,
        scale_long: None,
        concrete: None,
        rebar: Vec::new(),
        ties: None,
    };
    assert(properties.model() == empty_props()) by {
        assert(properties.rebar@.map_values(|e: RebarEntry| e.model()) =~= Seq::empty());
    }
    assert(kind_of(ws[i as int]) == Some(kind));
    assert(header_id(ws[i + 1]) == Some(id@));
    match exec_body(text, cs, spans, i + 3, &mut properties) {
        Some(j) => Some((Section { kind, id, properties }, j)),
        None => None,
    }
}

/// The sections in `acc`, followed by those of `rest` if there are any.
pub open spec fn prepend(acc: Seq<SectionModel>, rest: Option<Seq<SectionModel>>) -> Option<
    Seq<SectionModel>,
> {
    match rest {
        Some(r) => Some(acc + r),
        None => None,
    }
}

/// Reads the sections of a document.
///
/// The text is preprocessed first, so sections may be written with an
/// indented body under a header line `<kind> "<id>":`. Returns `Err` with a
/// message exactly when the text is not a sequence of well-formed sections.
pub fn parse(input: &str) -> (r: Result<Vec<Section>, String>)
    ensures
        match parsed(input@) {
            Some(v) => r is Ok && r->Ok_0@.map_values(|s: Section| s.model()) == v,
            None => r is Err,
        },
{
    let text = preprocess(input);
    let cs = chars_of(text.as_str());
    let spans = split_words(&cs);
    let ghost ws = words(cs@);
    let n = spans.len();
    let mut out: Vec<Section> = Vec::new();
    let mut i: usize = 0;
    assert(out@.map_values(|s: Section| s.model()) =~= Seq::<SectionModel>::empty());
    assert(prepend(Seq::empty(), parse_sections(ws, 0)) =~= parse_sections(ws, 0));
    while i < n
        invariant
            cs@ == text@,
            text@ == preprocessed(input@),
            spans_match(cs@, spans@, ws),
            ws == words(cs@),
            n == spans@.len(),
            parsed(input@) == prepend(
                out@.map_values(|s: Section| s.model()),
                parse_sections(ws, i as int),
            ),
        decreases n - i,
    {
        match exec_section(text.as_str(), &cs, &spans, i) {
            Some((sec, j)) => {
                if j <= i {
                    return Err(String::from_str("malformed section"));
                }
                let ghost before = out@.map_values(|s: Section| s.model());
                let ghost m = sec.model();
                proof {
                    match parse_sections(ws, j as int) {
                        Some(rest) => {
                            assert(before + (seq![m] + rest) =~= before.push(m) + rest);
                        },
                        None => {},
                    }
                }
                out.push(sec);
                assert(out@.map_values(|s: Section| s.model()) =~= before.push(m));
                i = j;
            },
            None => {
                let (a, b) = spans[i];
                let mut msg = String::from_str("malformed section starting at: ");
                msg.append(text.as_str().substring_char(a, b));
                return Err(msg);
            },
        }
    }
    assert(out@.map_values(|s: Section| s.model()) + Seq::<SectionModel>::empty() =~= out@.map_values(
        |s: Section| s.model(),
    ));
    Ok(out)
}

} // verus!
