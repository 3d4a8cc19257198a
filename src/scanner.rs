use vstd::prelude::*;
use vstd::utf8::is_ascii_chars;

verus! {

/// The lower-case form of a character under ASCII rules: 'A'..='Z' become
/// 'a'..='z', every other character is kept.
pub open spec fn ascii_lower_char(c: char) -> char {
    if 'A' <= c && c <= 'Z' {
        ((c as u32) + 32) as char
    } else {
        c
    }
}

/// A text lowered character by character under ASCII rules.
pub open spec fn ascii_lowered(s: Seq<char>) -> Seq<char> {
    s.map_values(|c: char| ascii_lower_char(c))
}

/// The Unicode lower-case form of a text.
pub uninterp spec fn lower_of(s: Seq<char>) -> Seq<char>;

/// The form of a text that matching compares: the text itself, or its
/// lower-case form when matching ignores case.
pub open spec fn comparison_form(s: Seq<char>, case_insensitive: bool) -> Seq<char> {
    if !case_insensitive {
        s
    } else if is_ascii_chars(s) {
        ascii_lowered(s)
    } else {
        lower_of(s)
    }
}

/// `needle` occurs in `hay` as a contiguous run of characters.
pub open spec fn contains_spec(hay: Seq<char>, needle: Seq<char>) -> bool {
    exists|i: int|
        0 <= i && i + needle.len() <= hay.len() && #[trigger] hay.subrange(i, i + needle.len())
            == needle
}

/// A line is reported when its comparison form contains that of the pattern.
pub open spec fn line_matches_spec(
    line: Seq<char>,
    pattern: Seq<char>,
    case_insensitive: bool,
) -> bool {
    contains_spec(comparison_form(line, case_insensitive), comparison_form(pattern, case_insensitive))
}

/// The records a scan of `lines` reports: each matching line with its
/// 1-based number, in file order.
pub open spec fn scan_spec(lines: Seq<Seq<char>>, pattern: Seq<char>, case_insensitive: bool) -> Seq<
    (int, Seq<char>),
>
    decreases lines.len(),
{
    if lines.len() == 0 {
        seq![]
    } else {
        scan_spec(lines.drop_last(), pattern, case_insensitive) + if line_matches_spec(
            lines.last(),
            pattern,
            case_insensitive,
        ) {
            seq![(lines.len() as int, lines.last())]
        } else {
            seq![]
        }
    }
}

/// Relies on `str::contains` with a string pattern: true exactly when
/// `needle` occurs in `hay` as a contiguous run of characters.
#[verifier::external_body]
fn str_contains(hay: &str, needle: &str) -> (r: bool)
    ensures
        r == contains_spec(hay@, needle@),
{
    hay.contains(needle)
}

/// Relies on `str::to_ascii_lowercase`: each of 'A'..='Z' becomes the
/// matching lower-case letter and every other character is kept.
#[verifier::external_body]
fn ascii_lowercase(s: &str) -> (r: String)
    ensures
        r@ == ascii_lowered(s@),
{
    s.to_ascii_lowercase()
}

/// Relies on `str::to_lowercase`: the Unicode lower-case form, which depends
/// on the characters alone.
#[verifier::external_body]
fn unicode_lowercase(s: &str) -> (r: String)
    ensures
        r@ == lower_of(s@),
{
    s.to_lowercase()
}

/// The comparison form of `s`: `s` itself, or lower-cased when
/// `case_insensitive` (by ASCII rules when `s` is ASCII, where they agree
/// with Unicode's).
pub fn comparison_text(s: &str, case_insensitive: bool) -> (r: String)
    ensures
        r@ == comparison_form(s@, case_insensitive),
{
    if !case_insensitive {
        s.to_owned()
    } else if s.is_ascii() {
        ascii_lowercase(s)
    } else {
        unicode_lowercase(s)
    }
}

/// Whether a line's comparison form contains the pattern's comparison form.
pub fn forms_match(line_form: &str, pattern_form: &str) -> (r: bool)
    ensures
        r == contains_spec(line_form@, pattern_form@),
{
    str_contains(line_form, pattern_form)
}

/// Whether `line` is reported for `pattern`.
pub fn line_matches(line: &str, pattern: &str, case_insensitive: bool) -> (r: bool)
    ensures
        r == line_matches_spec(line@, pattern@, case_insensitive),
{
    let line_form = comparison_text(line, case_insensitive);
    let pattern_form = comparison_text(pattern, case_insensitive);
    forms_match(line_form.as_str(), pattern_form.as_str())
}

/// A reported line: its 1-based number and its text as read.
#[derive(Clone, Debug)]
pub struct LineRecord {
    pub number: usize,
    pub text: String,
}

/// The value of a record: its number and its text.
pub open spec fn record_view(r: LineRecord) -> (int, Seq<char>) {
    (r.number as int, r.text@)
}

/// A sequence of records as values.
pub open spec fn records_view(v: Seq<LineRecord>) -> Seq<(int, Seq<char>)> {
    v.map_values(|r: LineRecord| record_view(r))
}

/// Line-by-line scan state: the lines are handed in one at a time, in file
/// order, and each matching line comes back as a record at once.
pub struct Scanner {
    pattern_form: String,
    case_insensitive: bool,
    lines_seen: usize,
    any_match: bool,
    pattern: Ghost<Seq<char>>,
    seen: Ghost<Seq<Seq<char>>>,
}

impl Scanner {
    /// The pattern searched for, as given.
    pub closed spec fn pattern(&self) -> Seq<char> {
        self.pattern@
    }

    /// Whether matching ignores case.
    pub closed spec fn ignores_case(&self) -> bool {
        self.case_insensitive
    }

    /// The lines handed in so far, in order.
    pub closed spec fn seen(&self) -> Seq<Seq<char>> {
        self.seen@
    }

    /// The records reported so far.
    pub open spec fn reported(&self) -> Seq<(int, Seq<char>)> {
        scan_spec(self.seen(), self.pattern(), self.ignores_case())
    }

    /// The state agrees with the lines handed in so far.
    pub closed spec fn wf(&self) -> bool {
        &&& self.pattern_form@ == comparison_form(self.pattern@, self.case_insensitive)
        &&& self.lines_seen as int == self.seen@.len()
        &&& self.any_match == (scan_spec(self.seen@, self.pattern@, self.case_insensitive).len() > 0)
    }

    /// Starts a scan for `pattern`; no line seen yet.
    pub fn new(pattern: &str, case_insensitive: bool) -> (s: Scanner)
        ensures
            s.wf(),
            s.pattern() == pattern@,
            s.ignores_case() == case_insensitive,
            s.seen() == Seq::<Seq<char>>::empty(),
    {
        Scanner {
            pattern_form: comparison_text(pattern, case_insensitive),
            case_insensitive,
            lines_seen: 0,
            any_match: false,
            pattern: Ghost(pattern@),
            seen: Ghost(Seq::empty()),
        }
    }

    /// The number of lines handed in so far.
    pub fn lines_seen(&self) -> (r: usize)
        requires
            self.wf(),
        ensures
            r == self.seen().len(),
    {
        self.lines_seen
    }

    /// Takes the next line of the file; returns its record when it matches.
    pub fn feed(&mut self, line: String) -> (r: Option<LineRecord>)
        requires
            old(self).wf(),
            old(self).seen().len() < usize::MAX,
        ensures
            final(self).wf(),
            final(self).pattern() == old(self).pattern(),
            final(self).ignores_case() == old(self).ignores_case(),
            final(self).seen() == old(self).seen().push(line@),
            r is Some <==> line_matches_spec(line@, old(self).pattern(), old(self).ignores_case()),
            r matches Some(rec) ==> rec.number == final(self).seen().len() && rec.text@ == line@,
    {
        let ghost old_seen = self.seen@;
        self.lines_seen = self.lines_seen + 1;
        self.seen = Ghost(old_seen.push(line@));
        proof {
            assert(self.seen@.drop_last() =~= old_seen);
        }
        let line_form = comparison_text(line.as_str(), self.case_insensitive);
        if forms_match(line_form.as_str(), self.pattern_form.as_str()) {
            self.any_match = true;
            Some(LineRecord { number: self.lines_seen, text: line })
        } else {
            None
        }
    }

    /// Whether any line handed in so far matched; `false` at the end of the
    /// input is the "not found" outcome.
    pub fn found_any(&self) -> (r: bool)
        requires
            self.wf(),
        ensures
            r == (self.reported().len() > 0),
    {
        self.any_match
    }
}

/// A file's lines as texts.
pub open spec fn texts_view(v: Seq<String>) -> Seq<Seq<char>> {
    v.map_values(|s: String| s@)
}

/// Scans a whole file given as its lines: the matching lines with their
/// 1-based numbers, in file order. An empty result is the "not found"
/// outcome.
pub fn scan_lines(lines: &Vec<String>, pattern: &str, case_insensitive: bool) -> (r: Vec<
    LineRecord,
>)
    ensures
        records_view(r@) == scan_spec(texts_view(lines@), pattern@, case_insensitive),
{
    let ghost all = texts_view(lines@);
    let mut out: Vec<LineRecord> = Vec::new();
    let mut i: usize = 0;
    proof {
        assert(all.take(0) =~= Seq::<Seq<char>>::empty());
        assert(records_view(out@) =~= Seq::<(int, Seq<char>)>::empty());
    }
    while i < lines.len()
        invariant
            0 <= i <= lines@.len(),
            all == texts_view(lines@),
            records_view(out@) == scan_spec(all.take(i as int), pattern@, case_insensitive),
        decreases lines.len() - i,
    {
        let ghost before = all.take(i as int);
        let ghost after = all.take(i as int + 1);
        proof {
            assert(after.drop_last() =~= before);
            assert(after.last() == lines@[i as int]@);
        }
        let ghost old_out = out@;
        if line_matches(lines[i].as_str(), pattern, case_insensitive) {
            out.push(LineRecord { number: i + 1, text: lines[i].clone() });
            proof {
                assert(records_view(out@) =~= records_view(old_out).push((i + 1, lines@[i as int]@)));
            }
        }
        proof {
            assert(records_view(out@) =~= scan_spec(after, pattern@, case_insensitive));
        }
        i = i + 1;
    }
    proof {
        assert(all.take(lines@.len() as int) =~= all);
    }
    out
}

proof fn lemma_ascii_fold_keeps_containment(line: Seq<char>, pattern: Seq<char>)
    requires
        contains_spec(line, pattern),
    ensures
        contains_spec(ascii_lowered(line), ascii_lowered(pattern)),
{
    let i = choose|i: int|
        0 <= i && i + pattern.len() <= line.len() && #[trigger] line.subrange(i, i + pattern.len())
            == pattern;
    assert(ascii_lowered(line).subrange(i, i + pattern.len()) =~= ascii_lowered(pattern));
}

/// On ASCII text, ignoring case loses no match: every record that a
/// case-sensitive scan reports, a case-insensitive scan of the same lines for
/// the same pattern reports too.
pub proof fn law_ignoring_case_reports_more(lines: Seq<Seq<char>>, pattern: Seq<char>)
    requires
        is_ascii_chars(pattern),
        forall|i: int| 0 <= i < lines.len() ==> is_ascii_chars(#[trigger] lines[i]),
    ensures
        forall|k: int|
            0 <= k < scan_spec(lines, pattern, false).len() ==> scan_spec(
                lines,
                pattern,
                true,
            ).contains(#[trigger] scan_spec(lines, pattern, false)[k]),
    decreases lines.len(),
{
    if lines.len() > 0 {
        let init = lines.drop_last();
        assert forall|i: int| 0 <= i < init.len() implies is_ascii_chars(#[trigger] init[i]) by {
            assert(init[i] == lines[i]);
        }
        law_ignoring_case_reports_more(init, pattern);
        let last = lines.last();
        assert(is_ascii_chars(last));
        if line_matches_spec(last, pattern, false) {
            lemma_ascii_fold_keeps_containment(last, pattern);
        }
        let cs = scan_spec(lines, pattern, false);
        let ci = scan_spec(lines, pattern, true);
        let cs0 = scan_spec(init, pattern, false);
        let ci0 = scan_spec(init, pattern, true);
        assert forall|k: int| 0 <= k < cs.len() implies ci.contains(#[trigger] cs[k]) by {
            if k < cs0.len() {
                assert(cs[k] == cs0[k]);
                let j = choose|j: int| 0 <= j < ci0.len() && ci0[j] == cs0[k];
                assert(ci[j] == ci0[j]);
            } else {
                assert(cs[k] == (lines.len() as int, last));
                assert(ci[ci0.len() as int] == (lines.len() as int, last));
            }
        }
    }
}

/// The empty pattern reports every line, numbered from 1, with or without
/// case folding; and a scan of no lines reports nothing, the "not found"
/// outcome, whatever the pattern.
pub proof fn law_empty_pattern_reports_every_line(
    lines: Seq<Seq<char>>,
    pattern: Seq<char>,
    case_insensitive: bool,
)
    ensures
        scan_spec(lines, Seq::<char>::empty(), case_insensitive) == Seq::new(
            lines.len(),
            |i: int| (i + 1, lines[i]),
        ),
        scan_spec(Seq::<Seq<char>>::empty(), pattern, case_insensitive).len() == 0,
    decreases lines.len(),
{
    let e = Seq::<char>::empty();
    assert(ascii_lowered(e) =~= e);
    assert(comparison_form(e, case_insensitive) == e);
    if lines.len() > 0 {
        let init = lines.drop_last();
        law_empty_pattern_reports_every_line(init, pattern, case_insensitive);
        let form = comparison_form(lines.last(), case_insensitive);
        assert(form.subrange(0int, 0int + e.len()) =~= e);
        assert(line_matches_spec(lines.last(), e, case_insensitive));
        assert(scan_spec(lines, e, case_insensitive) =~= Seq::new(
            lines.len(),
            |i: int| (i + 1, lines[i]),
        ));
    } else {
        assert(scan_spec(lines, e, case_insensitive) =~= Seq::new(
            lines.len(),
            |i: int| (i + 1, lines[i]),
        ));
    }
}

} // verus!
