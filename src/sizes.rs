//! Bar-size designators: their display colours, and the textual form that
//! decides how a designator becomes a diameter.
use vstd::prelude::*;
use crate::preprocess::chars_of;

verus! {

/// Whether `a` holds exactly the characters of `b`.
pub fn str_eq(a: &str, b: &str) -> (r: bool)
    ensures
        r == (a@ == b@),
{
    let n = a.unicode_len();
    if n != b.unicode_len() {
        return false;
    }
    let mut i: usize = 0;
    while i < n
        invariant
            n == a@.len(),
            n == b@.len(),
            i <= n,
            forall|j: int| 0 <= j < i ==> a@[j] == b@[j],
        decreases n - i,
    {
        if a.get_char(i) != b.get_char(i) {
            return false;
        }
        i = i + 1;
    }
    assert(a@ =~= b@);
    true
}

/// The display colour of a bar-size designator, keyed on its exact text.
pub open spec fn color_of(size: Seq<char>) -> Seq<char> {
    if size == "#3"@ || size == "3/8\""@ {
        "#CC7000"@
    } else if size == "#4"@ || size == "1/2\""@ {
        "#CC0000"@
    } else if size == "#5"@ || size == "5/8\""@ {
        "#800080"@
    } else if size == "#6"@ || size == "3/4\""@ {
        "#000080"@
    } else if size == "#8"@ || size == "1\""@ {
        "#006400"@
    } else {
        "black"@
    }
}

/// The display colour of a bar size: one per common designator, in both its
/// number and its inch form, and black for any other text.
pub fn get_color_for_size(size: &str) -> (r: String)
    ensures
        r@ == color_of(size@),
{
    if str_eq(size, "#3") || str_eq(size, "3/8\"") {
        String::from_str("#CC7000")
    } else if str_eq(size, "#4") || str_eq(size, "1/2\"") {
        String::from_str("#CC0000")
    } else if str_eq(size, "#5") || str_eq(size, "5/8\"") {
        String::from_str("#800080")
    } else if str_eq(size, "#6") || str_eq(size, "3/4\"") {
        String::from_str("#000080")
    } else if str_eq(size, "#8") || str_eq(size, "1\"") {
        String::from_str("#006400")
    } else {
        String::from_str("black")
    }
}

/// How a designator's text reads, with the numbers still as text.
pub ghost enum SizeText {
    Eighths(Seq<char>),
    Fraction(Seq<char>, Seq<char>),
    Inches(Seq<char>),
    Unknown,
}

/// The form of a bar-size designator.
///
/// `#N` gives `N` eighths of an inch; `a/b"` a fraction of an inch; `a"`
/// whole inches. The numbers are left as text; a designator of none of these
/// forms is `Unknown`, and so is one whose number text does not read as a
/// number, which is decided where the text becomes a number.
#[derive(Debug, Clone, PartialEq, Eq)]
pub enum SizeForm {
    Eighths(String),
    Fraction(String, String),
    Inches(String),
    Unknown,
}

impl View for SizeForm {
    type V = SizeText;

    open spec fn view(&self) -> SizeText {
        match self {
            SizeForm::Eighths(t) => SizeText::Eighths(t@),
            SizeForm::Fraction(a, b) => SizeText::Fraction(a@, b@),
            SizeForm::Inches(t) => SizeText::Inches(t@),
            SizeForm::Unknown => SizeText::Unknown,
        }
    }
}

/// `s` without all its trailing double quotes.
pub open spec fn strip_quotes(s: Seq<char>) -> Seq<char>
    decreases s.len(),
{
    if s.len() > 0 && s.last() == '"' {
        strip_quotes(s.drop_last())
    } else {
        s
    }
}

pub open spec fn no_slash(s: Seq<char>) -> bool {
    forall|i: int| 0 <= i < s.len() ==> s[i] != '/'
}

pub open spec fn starts_with_hash(s: Seq<char>) -> bool {
    s.len() > 0 && s[0] == '#'
}

pub open spec fn ends_with_quote(s: Seq<char>) -> bool {
    s.len() > 0 && s.last() == '"'
}

/// What `classify_size` returns for the designator `s`.
pub open spec fn size_text_of(s: Seq<char>, r: SizeText) -> bool {
    let c = strip_quotes(s);
    match r {
        SizeText::Eighths(t) => starts_with_hash(s) && t == s.drop_first(),
        SizeText::Fraction(a, b) => !starts_with_hash(s) && ends_with_quote(s) && c == a + seq![
            '/',
        ] + b && no_slash(a) && no_slash(b),
        SizeText::Inches(t) => !starts_with_hash(s) && ends_with_quote(s) && t == c && no_slash(
            t,
        ),
        SizeText::Unknown => !starts_with_hash(s) && (!ends_with_quote(s) || exists|i: int, j: int|
            0 <= i < j < c.len() && c[i] == '/' && c[j] == '/'),
    }
}

/// The length of `cs` without its trailing double quotes.
fn strip_quotes_len(cs: &Vec<char>) -> (n: usize)
    ensures
        n <= cs@.len(),
        strip_quotes(cs@) == cs@.subrange(0, n as int),
{
    let mut n = cs.len();
    assert(cs@.subrange(0, n as int) =~= cs@);
    while n > 0 && cs[n - 1] == '"'
        invariant
            n <= cs@.len(),
            strip_quotes(cs@) == strip_quotes(cs@.subrange(0, n as int)),
        decreases n,
    {
        assert(cs@.subrange(0, n as int).drop_last() =~= cs@.subrange(0, n - 1));
        n = n - 1;
    }
    n
}

/// Splits a bar-size designator into its form and its number text.
pub fn classify_size(s: &str) -> (r: SizeForm)
    ensures
        size_text_of(s@, r@),
{
    let cs = chars_of(s);
    let n = cs.len();
    if n > 0 && cs[0] == '#' {
        let t = s.substring_char(1, n);
        assert(t@ =~= s@.drop_first());
        return SizeForm::Eighths(String::from_str(t));
    }
    if n == 0 || cs[n - 1] != '"' {
        return SizeForm::Unknown;
    }
    let m = strip_quotes_len(&cs);
    let ghost c = s@.subrange(0, m as int);
    assert(!starts_with_hash(s@) && ends_with_quote(s@));
    let mut first: usize = m;
    let mut i: usize = 0;
    while i < m
        invariant
            cs@ == s@,
            m <= n == cs@.len(),
            c == s@.subrange(0, m as int),
            c == strip_quotes(s@),
            !starts_with_hash(s@),
            ends_with_quote(s@),
            i <= m,
            first <= m,
            first < m ==> first < i && c[first as int] == '/',
            forall|j: int| 0 <= j < i && j != first ==> c[j] != '/',
            first == m ==> forall|j: int| 0 <= j < i ==> c[j] != '/',
        decreases m - i,
    {
        if cs[i] == '/' {
            if first < m {
                assert(c[i as int] == cs@[i as int]);
                let ghost f = first as int;
                let ghost k = i as int;
                assert(0 <= f < k < c.len() && c[f] == '/' && c[k] == '/');
                return SizeForm::Unknown;
            }
            first = i;
        }
        i = i + 1;
    }
    if first == m {
        let t = s.substring_char(0, m);
        return SizeForm::Inches(String::from_str(t));
    }
    let a = s.substring_char(0, first);
    let b = s.substring_char(first + 1, m);
    assert(c =~= a@ + seq!['/'] + b@);
    assert(no_slash(b@)) by {
        assert forall|j: int| 0 <= j < b@.len() implies b@[j] != '/' by {
            assert(b@[j] == c[first + 1 + j]);
        }
    }
    SizeForm::Fraction(String::from_str(a), String::from_str(b))
}

} // verus!
