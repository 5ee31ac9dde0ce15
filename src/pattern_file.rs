use vstd::prelude::*;

verus! {

/// The characters that `char::is_whitespace` accepts: Unicode White_Space.
pub open spec fn is_space(c: char) -> bool {
    ('\u{9}' <= c && c <= '\u{d}') || c == ' ' || c == '\u{85}' || c == '\u{a0}' || c
        == '\u{1680}' || ('\u{2000}' <= c && c <= '\u{200a}') || c == '\u{2028}' || c
        == '\u{2029}' || c == '\u{202f}' || c == '\u{205f}' || c == '\u{3000}'
}

/// Characters that may wrap a whole pattern line.
pub open spec fn is_wrapper(c: char) -> bool {
    c == '(' || c == ')' || c == '"'
}

/// `s` without its leading characters that satisfy `p`.
pub open spec fn strip_front(s: Seq<char>, p: spec_fn(char) -> bool) -> Seq<char>
    decreases s.len(),
{
    if s.len() > 0 && p(s[0]) {
        strip_front(s.drop_first(), p)
    } else {
        s
    }
}

/// `s` without its trailing characters that satisfy `p`.
pub open spec fn strip_back(s: Seq<char>, p: spec_fn(char) -> bool) -> Seq<char>
    decreases s.len(),
{
    if s.len() > 0 && p(s.last()) {
        strip_back(s.drop_last(), p)
    } else {
        s
    }
}

/// `s` without leading and trailing characters that satisfy `p`.
pub open spec fn strip_both(s: Seq<char>, p: spec_fn(char) -> bool) -> Seq<char> {
    strip_back(strip_front(s, p), p)
}

pub open spec fn trim(s: Seq<char>) -> Seq<char> {
    strip_both(s, |c: char| is_space(c))
}

/// `p` is the position of the one comma in `s`.
pub open spec fn sole_comma(s: Seq<char>, p: int) -> bool {
    &&& 0 <= p < s.len()
    &&& s[p] == ','
    &&& forall|q: int| 0 <= q < s.len() && q != p ==> s[q] != ','
}

/// A pattern source without a leading `r` marker in front of a quote, and
/// without surrounding quotes.
pub open spec fn unquote(s: Seq<char>) -> Seq<char> {
    let t = if s.len() >= 2 && s[0] == 'r' && s[1] == '"' {
        s.drop_first()
    } else {
        s
    };
    strip_both(t, |c: char| c == '"')
}

/// What one line of a pattern file holds.
pub enum LineSpec {
    Blank,
    Malformed,
    Entry(Seq<char>, Seq<char>),
}

/// The meaning of one line of a pattern file: blank when only white space;
/// otherwise, once white space and wrapping parentheses and quotes are
/// stripped, an entry when exactly one comma splits it into a label and a
/// pattern (each trimmed, the pattern also unquoted); malformed else.
pub open spec fn line_spec(line: Seq<char>) -> LineSpec {
    let t = trim(line);
    let u = strip_both(t, |c: char| is_wrapper(c));
    if t.len() == 0 {
        LineSpec::Blank
    } else if exists|p: int| sole_comma(u, p) {
        let p = choose|p: int| sole_comma(u, p);
        LineSpec::Entry(trim(u.subrange(0, p)), unquote(trim(u.subrange(p + 1, u.len() as int))))
    } else {
        LineSpec::Malformed
    }
}

/// One parsed line of a pattern file.
#[derive(Debug, Clone, PartialEq, Eq)]
pub enum PatternLine {
    Blank,
    Malformed,
    Entry(String, String),
}

impl View for PatternLine {
    type V = LineSpec;

    open spec fn view(&self) -> LineSpec {
        match self {
            PatternLine::Blank => LineSpec::Blank,
            PatternLine::Malformed => LineSpec::Malformed,
            PatternLine::Entry(l, p) => LineSpec::Entry(l@, p@),
        }
    }
}

/// The kinds of characters stripped from the ends of a piece of a line.
#[derive(Clone, Copy)]
enum Strip {
    Space,
    Wrapper,
    Quote,
}

spec fn strip_pred(k: Strip) -> spec_fn(char) -> bool {
    match k {
        Strip::Space => |c: char| is_space(c),
        Strip::Wrapper => |c: char| is_wrapper(c),
        Strip::Quote => |c: char| c == '"',
    }
}

fn is_space_char(c: char) -> (r: bool)
    ensures
        r == is_space(c),
{
    ('\u{9}' <= c && c <= '\u{d}') || c == ' ' || c == '\u{85}' || c == '\u{a0}' || c
        == '\u{1680}' || ('\u{2000}' <= c && c <= '\u{200a}') || c == '\u{2028}' || c
        == '\u{2029}' || c == '\u{202f}' || c == '\u{205f}' || c == '\u{3000}'
}

fn in_class(k: Strip, c: char) -> (r: bool)
    ensures
        r == (strip_pred(k))(c),
{
    match k {
        Strip::Space => is_space_char(c),
        Strip::Wrapper => c == '(' || c == ')' || c == '"',
        Strip::Quote => c == '"',
    }
}

fn strip_chars<'a>(s: &'a str, k: Strip) -> (r: &'a str)
    ensures
        r@ == strip_both(s@, strip_pred(k)),
{
    let ghost p = strip_pred(k);
    let n = s.unicode_len();
    let mut a: usize = 0;
    let mut going = true;
    assert(s@.subrange(0, n as int) =~= s@);
    while going
        invariant
            a <= n,
            n == s@.len(),
            p == strip_pred(k),
            strip_front(s@, p) == strip_front(s@.subrange(a as int, n as int), p),
            !going ==> a == n || !p(s@[a as int]),
        decreases n - a + if going { 1int } else { 0int },
    {
        if a < n && in_class(k, s.get_char(a)) {
            proof {
                let t = s@.subrange(a as int, n as int);
                assert(t[0] == s@[a as int]);
                assert(t.drop_first() =~= s@.subrange(a as int + 1, n as int));
            }
            a = a + 1;
        } else {
            going = false;
        }
    }
    proof {
        let t = s@.subrange(a as int, n as int);
        if a < n {
            assert(t[0] == s@[a as int]);
        }
        assert(strip_front(s@, p) =~= t);
    }
    let mut b: usize = n;
    going = true;
    while going
        invariant
            a <= b <= n,
            n == s@.len(),
            p == strip_pred(k),
            strip_front(s@, p) == s@.subrange(a as int, n as int),
            strip_both(s@, p) == strip_back(s@.subrange(a as int, b as int), p),
            !going ==> b == a || !p(s@[b - 1]),
        decreases b - a + if going { 1int } else { 0int },
    {
        if b > a && in_class(k, s.get_char(b - 1)) {
            proof {
                let t = s@.subrange(a as int, b as int);
                assert(t.last() == s@[b - 1]);
                assert(t.drop_last() =~= s@.subrange(a as int, b as int - 1));
            }
            b = b - 1;
        } else {
            going = false;
        }
    }
    proof {
        let t = s@.subrange(a as int, b as int);
        if b > a {
            assert(t.last() == s@[b - 1]);
        }
    }
    s.substring_char(a, b)
}

/// Reads one line of a pattern file.
pub fn parse_pattern_line(line: &str) -> (r: PatternLine)
    ensures
        r@ == line_spec(line@),
{
    let t = strip_chars(line, Strip::Space);
    let ghost tv = t@;
    let u = strip_chars(t, Strip::Wrapper);
    assert(strip_pred(Strip::Space) == (|c: char| is_space(c)));
    assert(strip_pred(Strip::Wrapper) == (|c: char| is_wrapper(c)));
    if t.unicode_len() == 0 {
        return PatternLine::Blank;
    }
    let n = u.unicode_len();
    let mut first: Option<usize> = None;
    let mut many = false;
    let mut i: usize = 0;
    while i < n
        invariant
            i <= n,
            n == u@.len(),
            first matches Some(p) ==> p < i && u@[p as int] == ',' && forall|q: int|
                0 <= q < p ==> u@[q] != ',',
            first is None ==> forall|q: int| 0 <= q < i ==> u@[q] != ',',
            many ==> first is Some && exists|q: int|
                0 <= q < i && q != first->Some_0 && u@[q] == ',',
            !many && first is Some ==> forall|q: int|
                0 <= q < i && q != first->Some_0 ==> u@[q] != ',',
        decreases n - i,
    {
        if u.get_char(i) == ',' {
            match first {
                None => {
                    first = Some(i);
                },
                Some(_) => {
                    many = true;
                },
            }
        }
        i = i + 1;
    }
    match first {
        Some(p) if !many => {
            assert(sole_comma(u@, p as int));
            let label = strip_chars(u.substring_char(0, p), Strip::Space);
            let rest = strip_chars(u.substring_char(p + 1, n), Strip::Space);
            let m = rest.unicode_len();
            let body = if m >= 2 && rest.get_char(0) == 'r' && rest.get_char(1) == '"' {
                rest.substring_char(1, m)
            } else {
                rest
            };
            let pattern = strip_chars(body, Strip::Quote);
            proof {
                let c = choose|q: int| sole_comma(u@, q);
                assert(c == p);
                if m >= 2 && rest@[0] == 'r' && rest@[1] == '"' {
                    assert(body@ =~= rest@.drop_first());
                }
                assert(strip_pred(Strip::Quote) == (|c: char| c == '"'));
            }
            PatternLine::Entry(String::from_str(label), String::from_str(pattern))
        },
        _ => {
            proof {
                if exists|q: int| sole_comma(u@, q) {
                    let q = choose|q: int| sole_comma(u@, q);
                    if many {
                        let w = choose|w: int|
                            0 <= w < n && w != first->Some_0 && u@[w] == ',';
                        assert(u@[first->Some_0 as int] == ',');
                    } else {
                        assert(u@[q] == ',');
                    }
                }
            }
            PatternLine::Malformed
        },
    }
}

/// The (label, pattern) entries of a pattern file, in order of lines.
pub open spec fn entries_of(lines: Seq<Seq<char>>) -> Seq<(Seq<char>, Seq<char>)>
    decreases lines.len(),
{
    if lines.len() == 0 {
        Seq::empty()
    } else {
        let prev = entries_of(lines.drop_last());
        match line_spec(lines.last()) {
            LineSpec::Entry(l, p) => prev.push((l, p)),
            _ => prev,
        }
    }
}

/// The 1-based numbers, ascending, of the malformed lines of a pattern file.
pub open spec fn malformed_of(lines: Seq<Seq<char>>) -> Seq<int>
    decreases lines.len(),
{
    if lines.len() == 0 {
        Seq::empty()
    } else {
        let prev = malformed_of(lines.drop_last());
        match line_spec(lines.last()) {
            LineSpec::Malformed => prev.push(lines.len() as int),
            _ => prev,
        }
    }
}

pub open spec fn pair_views(pairs: Seq<(String, String)>) -> Seq<(Seq<char>, Seq<char>)> {
    pairs.map_values(|p: (String, String)| (p.0@, p.1@))
}

/// The entries of a pattern file and the lines that could not be read as
/// one.
pub struct PatternFile {
    pub entries: Vec<(String, String)>,
    pub malformed: Vec<usize>,
}

impl PatternFile {
    /// Reads a pattern file given as its lines: blank lines are skipped,
    /// each entry line gives one (label, pattern) pair, and the numbers of
    /// malformed lines are kept for diagnostics.
    pub fn parse(lines: &Vec<String>) -> (r: PatternFile)
        ensures
            pair_views(r.entries@) == entries_of(lines.deep_view()),
            r.malformed@.map_values(|n: usize| n as int) == malformed_of(lines.deep_view()),
    {
        let mut entries: Vec<(String, String)> = Vec::new();
        let mut malformed: Vec<usize> = Vec::new();
        let ghost texts = lines.deep_view();
        let mut i: usize = 0;
        while i < lines.len()
            invariant
                i <= lines@.len(),
                texts == lines.deep_view(),
                pair_views(entries@) == entries_of(texts.take(i as int)),
                malformed@.map_values(|n: usize| n as int) == malformed_of(texts.take(i as int)),
            decreases lines@.len() - i,
        {
            let parsed = parse_pattern_line(lines[i].as_str());
            proof {
                let t = texts.take(i as int + 1);
                assert(t.drop_last() =~= texts.take(i as int));
                assert(t.last() == lines@[i as int]@);
            }
            match parsed {
                PatternLine::Entry(l, p) => {
                    proof {
                        assert(pair_views(entries@.push((l, p))) =~= pair_views(entries@).push(
                            (l@, p@),
                        ));
                    }
                    entries.push((l, p));
                },
                PatternLine::Malformed => {
                    let ghost old_m = malformed@;
                    malformed.push(i + 1);
                    proof {
                        assert(malformed@.map_values(|n: usize| n as int) =~= old_m.map_values(
                            |n: usize| n as int,
                        ).push(i + 1));
                    }
                },
                PatternLine::Blank => {},
            }
            i = i + 1;
        }
        proof {
            assert(texts.take(lines@.len() as int) =~= texts);
        }
        PatternFile { entries, malformed }
    }
}

} // verus!
