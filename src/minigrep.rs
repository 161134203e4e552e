use vstd::prelude::*;

verus! {

/// Whether `needle` occurs in `hay` as a run of consecutive characters.
pub open spec fn is_substring(needle: Seq<char>, hay: Seq<char>) -> bool {
    exists|i: int|
        0 <= i && i + needle.len() <= hay.len() && #[trigger] hay.subrange(i, i + needle.len())
            == needle
}

/// Index just past the last line feed before position `i`, or `0`.
pub open spec fn line_start(s: Seq<char>, i: int) -> int
    decreases i,
{
    if i <= 0 {
        0
    } else if s[i - 1] == '\n' {
        i
    } else {
        line_start(s, i - 1)
    }
}

/// The text from `start` to the line feed at `end`, without a carriage return before it.
pub open spec fn ended_line(s: Seq<char>, start: int, end: int) -> Seq<char> {
    if end > start && s[end - 1] == '\r' {
        s.subrange(start, end - 1)
    } else {
        s.subrange(start, end)
    }
}

/// The lines ended by a line feed before position `i`.
pub open spec fn lines_upto(s: Seq<char>, i: int) -> Seq<Seq<char>>
    decreases i,
{
    if i <= 0 {
        seq![]
    } else if s[i - 1] == '\n' {
        lines_upto(s, i - 1).push(ended_line(s, line_start(s, i - 1), i - 1))
    } else {
        lines_upto(s, i - 1)
    }
}

/// The lines of `s` as `str::lines` yields them: split at `\n` or `\r\n`, and a final line
/// only when text follows the last line feed.
pub open spec fn lines_of(s: Seq<char>) -> Seq<Seq<char>> {
    let st = line_start(s, s.len() as int);
    if st < s.len() {
        lines_upto(s, s.len() as int).push(s.subrange(st, s.len() as int))
    } else {
        lines_upto(s, s.len() as int)
    }
}

/// The lines of `contents` that contain `query`, in order.
pub open spec fn matching_lines(query: Seq<char>, contents: Seq<char>) -> Seq<Seq<char>> {
    lines_of(contents).filter(|l: Seq<char>| is_substring(query, l))
}

pub uninterp spec fn lower_of(s: Seq<char>) -> Seq<char>;

/// The lines of `contents` that contain `query` once both are lower-cased, in order.
pub open spec fn matching_lines_folded(query: Seq<char>, contents: Seq<char>) -> Seq<Seq<char>> {
    lines_of(contents).filter(|l: Seq<char>| is_substring(lower_of(query), lower_of(l)))
}

/// Relies on `str::to_lowercase`: its result depends on the characters alone.
#[verifier::external_body]
fn lowercase(s: &str) -> (r: String)
    ensures
        r@ == lower_of(s@),
{
    s.to_lowercase()
}

fn chars_of(s: &str) -> (v: Vec<char>)
    ensures
        v@ == s@,
{
    let n = s.unicode_len();
    let mut v: Vec<char> = Vec::new();
    let mut i: usize = 0;
    while i < n
        invariant
            n == s@.len(),
            i <= n,
            v@ == s@.subrange(0, i as int),
        decreases n - i,
    {
        v.push(s.get_char(i));
        i = i + 1;
        assert(v@ =~= s@.subrange(0, i as int));
    }
    assert(v@ =~= s@);
    v
}

fn occurs_at(hay: &Vec<char>, needle: &Vec<char>, at: usize) -> (r: bool)
    requires
        at + needle@.len() <= hay@.len(),
    ensures
        r == (hay@.subrange(at as int, at + needle@.len()) == needle@),
{
    let hl = hay.len();
    let mut k: usize = 0;
    while k < needle.len()
        invariant
            hl == hay@.len(),
            at + needle@.len() <= hay@.len(),
            k <= needle@.len(),
            forall|j: int| 0 <= j < k ==> hay@[at + j] == needle@[j],
        decreases needle@.len() - k,
    {
        if hay[at + k] != needle[k] {
            assert(hay@.subrange(at as int, at + needle@.len())[k as int] != needle@[k as int]);
            return false;
        }
        k = k + 1;
    }
    assert(hay@.subrange(at as int, at + needle@.len()) =~= needle@);
    true
}

fn contains_chars(hay: &Vec<char>, needle: &Vec<char>) -> (r: bool)
    ensures
        r == is_substring(needle@, hay@),
{
    if needle.len() == 0 {
        assert(hay@.subrange(0, 0int + needle@.len()) =~= needle@);
        return true;
    }
    if needle.len() > hay.len() {
        return false;
    }
    let hl = hay.len();
    let last = hl - needle.len();
    let mut at: usize = 0;
    while at <= last
        invariant
            hl == hay@.len(),
            last + needle@.len() == hay@.len(),
            needle@.len() >= 1,
            at <= last + 1,
            forall|i: int| 0 <= i < at ==> #[trigger] hay@.subrange(i, i + needle@.len()) != needle@,
        decreases last + 1 - at,
    {
        if occurs_at(hay, needle, at) {
            return true;
        }
        at = at + 1;
    }
    false
}

/// What to search for and where.
pub struct Config {
    pub query: String,
    pub filename: String,
    pub ignore_case: bool,
}

impl Config {
    /// Reads `<program> <query> <filename>`; any other number of arguments is an error.
    pub fn build(args: &[String], ignore_case: bool) -> (r: Result<Config, &'static str>)
        ensures
            args@.len() == 3 <==> r is Ok,
            r matches Ok(c) ==> c.query == args@[1] && c.filename == args@[2] && c.ignore_case
                == ignore_case,
    {
        if args.len() != 3 {
            return Err("You must provide exactly two arguments: <query> <filename>");
        }
        Ok(Config { query: args[1].clone(), filename: args[2].clone(), ignore_case })
    }
}

/// Whether `needle` occurs in `hay`.
pub fn contains(hay: &str, needle: &str) -> (r: bool)
    ensures
        r == is_substring(needle@, hay@),
{
    contains_chars(&chars_of(hay), &chars_of(needle))
}

/// Every line of `contents` that contains `query`, in order.
pub fn search<'a>(query: &str, contents: &'a str) -> (r: Vec<&'a str>)
    ensures
        r@.map_values(|l: &str| l@) == matching_lines(query@, contents@),
{
    let q = chars_of(query);
    let r = collect_lines(contents, &q, false);
    assert((|l: Seq<char>| keeps(q@, false, l)) =~= (|l: Seq<char>| is_substring(query@, l)));
    r
}

/// Every line of `contents` that contains `query`, ignoring case, in order.
pub fn search_case_insensitive<'a>(query: &str, contents: &'a str) -> (r: Vec<&'a str>)
    ensures
        r@.map_values(|l: &str| l@) == matching_lines_folded(query@, contents@),
{
    let folded = lowercase(query);
    let q = chars_of(folded.as_str());
    let r = collect_lines(contents, &q, true);
    assert((|l: Seq<char>| keeps(q@, true, l)) =~= (|l: Seq<char>| is_substring(lower_of(query@), lower_of(l))));
    r
}

/// Whether a line is kept: `q` occurs in it, or in its lower-cased form when `fold`.
pub open spec fn keeps(q: Seq<char>, fold: bool, l: Seq<char>) -> bool {
    if fold {
        is_substring(q, lower_of(l))
    } else {
        is_substring(q, l)
    }
}

fn keep_line(line: &str, q: &Vec<char>, fold: bool) -> (r: bool)
    ensures
        r == keeps(q@, fold, line@),
{
    if fold {
        let low = lowercase(line);
        contains_chars(&chars_of(low.as_str()), q)
    } else {
        contains_chars(&chars_of(line), q)
    }
}

fn collect_lines<'a>(contents: &'a str, q: &Vec<char>, fold: bool) -> (r: Vec<&'a str>)
    ensures
        r@.map_values(|l: &str| l@) == lines_of(contents@).filter(|l: Seq<char>| keeps(q@, fold, l)),
{
    let ghost s = contents@;
    let ghost pred = |l: Seq<char>| keeps(q@, fold, l);
    let n = contents.unicode_len();
    let mut out: Vec<&'a str> = Vec::new();
    let mut start: usize = 0;
    let mut i: usize = 0;
    while i < n
        invariant
            n == s.len(),
            s == contents@,
            pred == (|l: Seq<char>| keeps(q@, fold, l)),
            i <= n,
            start <= i,
            start == line_start(s, i as int),
            out@.map_values(|l: &str| l@) == lines_upto(s, i as int).filter(pred),
        decreases n - i,
    {
        if contents.get_char(i) == '\n' {
            let end = if i > start && contents.get_char(i - 1) == '\r' {
                i - 1
            } else {
                i
            };
            let line = contents.substring_char(start, end);
            assert(line@ == ended_line(s, start as int, i as int));
            let ghost before = out@.map_values(|l: &str| l@);
            if keep_line(line, q, fold) {
                out.push(line);
            }
            proof {
                lines_upto(s, i as int).lemma_filter_push(line@, pred);
                assert(out@.map_values(|l: &str| l@) =~= lines_upto(s, (i + 1) as int).filter(pred));
            }
            start = i + 1;
        }
        i = i + 1;
    }
    if start < n {
        let line = contents.substring_char(start, n);
        if keep_line(line, q, fold) {
            out.push(line);
        }
        proof {
            lines_upto(s, n as int).lemma_filter_push(line@, pred);
            assert(out@.map_values(|l: &str| l@) =~= lines_of(s).filter(pred));
        }
    }
    out
}

} // verus!
