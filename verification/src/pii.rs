//! Personal data in text: regular expressions over a handful of common shapes
//! (email, US phone and social security numbers, a sixteen-digit card format,
//! IPv4). Heuristics: no checksum is computed, and no international format is
//! known.
use crate::text::{ascii_upper, is_ascii_text, occurs, texts, to_uppercase, uppercase};
use regex::Regex;
use vstd::prelude::*;

verus! {

/// A compiled regular expression.
#[verifier::external_type_specification]
#[verifier::external_body]
pub struct ExRegex(regex::Regex);

/// Why a pattern is no regular expression.
#[verifier::external_type_specification]
#[verifier::external_body]
pub struct ExRegexError(regex::Error);

/// The pattern that `Regex::new` made a regular expression from. Of one that a
/// builder made with other options it says nothing.
pub uninterp spec fn regex_source(regex: Regex) -> Seq<char>;

/// Whether a pattern is a regular expression within the size limit.
pub uninterp spec fn regex_compiles(pattern: Seq<char>) -> bool;

/// Where the successive matches of a pattern lie in a text: for each, the
/// number of characters before its start and before its end.
pub uninterp spec fn regex_spans(pattern: Seq<char>, text: Seq<char>) -> Seq<(int, int)>;

/// Whether spans lie in a text of the given length, one after the other,
/// without overlapping.
pub open spec fn spans_fit(spans: Seq<(int, int)>, len: int) -> bool {
    &&& forall|i: int|
        0 <= i < spans.len() ==> 0 <= (#[trigger] spans[i]).0 <= spans[i].1 <= len
    &&& forall|i: int, j: int|
        0 <= i < j < spans.len() ==> (#[trigger] spans[i]).1 <= (#[trigger] spans[j]).0
}

/// The pieces of a text at the given spans.
pub open spec fn cut(text: Seq<char>, spans: Seq<(int, int)>) -> Seq<Seq<char>> {
    spans.map_values(|s: (int, int)| text.subrange(s.0, s.1))
}

/// Whether the pieces are those of the text at the given spans, one after the
/// other.
pub open spec fn pieces_at(
    pieces: Seq<Seq<char>>,
    text: Seq<char>,
    spans: Seq<(int, int)>,
) -> bool {
    &&& spans_fit(spans, text.len() as int)
    &&& pieces == cut(text, spans)
}

/// The text, or another sequence, with the piece at each span replaced by the
/// replacement of the same number.
pub open spec fn splice<A>(
    text: Seq<A>,
    spans: Seq<(int, int)>,
    replacements: Seq<Seq<A>>,
) -> Seq<A>
    decreases spans.len(),
{
    if spans.len() == 0 {
        text
    } else {
        splice(text.take(spans.last().0), spans.drop_last(), replacements.drop_last())
            + replacements.last() + text.skip(spans.last().1)
    }
}

/// `n` times the same text, or another sequence.
pub open spec fn repeated<A>(text: Seq<A>, n: nat) -> Seq<Seq<A>> {
    Seq::new(n, |i: int| text)
}

/// `Regex::new`: succeeds if and only if the pattern compiles, and remembers
/// the pattern.
pub assume_specification[ Regex::new ](re: &str) -> (compiled: Result<Regex, regex::Error>)
    ensures
        match compiled {
            Ok(regex) => regex_compiles(re@) && regex_source(regex) == re@,
            Err(_) => !regex_compiles(re@),
        },
;

/// `Regex::find_iter`: the text of each match, in the order in which they
/// stand. Matches lie within the text and do not overlap.
#[verifier::external_body]
fn find_all(regex: &Regex, text: &str) -> (matched: Vec<String>)
    ensures
        pieces_at(texts(matched@), text@, regex_spans(regex_source(*regex), text@)),
{
    regex.find_iter(text).map(|m| m.as_str().to_string()).collect()
}

/// `Regex::replace_all` with a replacement that holds no `$`: every match is
/// replaced by it, and the rest of the text stays.
#[verifier::external_body]
fn replace_all(regex: &Regex, text: &str, replacement: &str) -> (replaced: String)
    requires
        !replacement@.contains('$'),
    ensures
        replaced@ == splice(
            text@,
            regex_spans(regex_source(*regex), text@),
            repeated(replacement@, regex_spans(regex_source(*regex), text@).len()),
        ),
{
    regex.replace_all(text, replacement).into_owned()
}

/// A kind of personal data and the regular expression that finds it.
pub struct Detector {
    pub kind: &'static str,
    pub regex: Regex,
}

/// A piece of personal data.
#[derive(Debug, Clone, PartialEq)]
pub struct PiiFinding {
    pub kind: &'static str,
    pub matched: String,
}

impl PiiFinding {
    /// The kind and the matched text.
    pub open spec fn view(&self) -> (Seq<char>, Seq<char>) {
        (self.kind@, self.matched@)
    }
}

/// The kinds and matched texts of a list of findings.
pub open spec fn found(findings: Seq<PiiFinding>) -> Seq<(Seq<char>, Seq<char>)> {
    findings.map_values(|f: PiiFinding| f@)
}

/// The kinds of personal data with their patterns, in the order in which they
/// are looked for.
pub open spec fn detector_table() -> Seq<(Seq<char>, Seq<char>)> {
    seq![
        ("email"@, r"[A-Za-z0-9._%+-]+@[A-Za-z0-9.-]+\.[A-Za-z]{2,}"@),
        ("ssn"@, r"\b\d{3}-\d{2}-\d{4}\b"@),
        ("credit_card"@, r"\b\d{4}[ -]?\d{4}[ -]?\d{4}[ -]?\d{4}\b"@),
        ("phone"@, r"\b(?:\+?1[-.\s]?)?\(?\d{3}\)?[-.\s]?\d{3}[-.\s]?\d{4}\b"@),
        ("ip_address"@, r"\b(?:\d{1,3}\.){3}\d{1,3}\b"@),
    ]
}

/// The kinds and patterns of a list of detectors.
pub open spec fn detector_rows(detectors: Seq<Detector>) -> Seq<(Seq<char>, Seq<char>)> {
    detectors.map_values(|d: Detector| (d.kind@, regex_source(d.regex)))
}

/// Whether every pattern of a table compiles.
pub open spec fn all_compile(table: Seq<(Seq<char>, Seq<char>)>) -> bool {
    forall|i: int| 0 <= i < table.len() ==> regex_compiles((#[trigger] table[i]).1)
}

/// What one row of the table finds in a text.
pub open spec fn row_findings(row: (Seq<char>, Seq<char>), text: Seq<char>) -> Seq<
    (Seq<char>, Seq<char>),
> {
    cut(text, regex_spans(row.1, text)).map_values(|m: Seq<char>| (row.0, m))
}

/// What the rows of a table find in a text, row after row.
pub open spec fn table_findings(table: Seq<(Seq<char>, Seq<char>)>, text: Seq<char>) -> Seq<
    (Seq<char>, Seq<char>),
>
    decreases table.len(),
{
    if table.len() == 0 {
        Seq::empty()
    } else {
        table_findings(table.drop_last(), text) + row_findings(table.last(), text)
    }
}

/// What stands in for personal data of a kind: `[REDACTED_<KIND>]`.
pub open spec fn placeholder(kind: Seq<char>) -> Seq<char> {
    "[REDACTED_"@ + uppercase(kind) + "]"@
}

/// The text with every match of one row replaced by the placeholder.
pub open spec fn row_redacted(row: (Seq<char>, Seq<char>), text: Seq<char>) -> Seq<char> {
    splice(text, regex_spans(row.1, text), repeated(placeholder(row.0), regex_spans(row.1, text).len()))
}

/// The text after each row of a table in turn has replaced its matches, and
/// what each row found in the text that it was given.
pub open spec fn table_redacted(table: Seq<(Seq<char>, Seq<char>)>, text: Seq<char>) -> (
    Seq<char>,
    Seq<(Seq<char>, Seq<char>)>,
)
    decreases table.len(),
{
    if table.len() == 0 {
        (text, Seq::empty())
    } else {
        let (before, findings) = table_redacted(table.drop_last(), text);
        (row_redacted(table.last(), before), findings + row_findings(table.last(), before))
    }
}

/// Whether the matches of every row lie in the text, one after the other: each
/// finding of a scan is a piece of the text.
pub open spec fn scan_spans_fit(table: Seq<(Seq<char>, Seq<char>)>, text: Seq<char>) -> bool {
    forall|i: int|
        0 <= i < table.len() ==> spans_fit(
            regex_spans((#[trigger] table[i]).1, text),
            text.len() as int,
        )
}

/// Whether the matches of every row lie in the text that the rows before it
/// have left, one after the other: each finding of a redaction is a piece of
/// that text.
pub open spec fn table_spans_fit(table: Seq<(Seq<char>, Seq<char>)>, text: Seq<char>) -> bool
    decreases table.len(),
{
    table.len() > 0 ==> {
        let before = table_redacted(table.drop_last(), text).0;
        &&& table_spans_fit(table.drop_last(), text)
        &&& spans_fit(regex_spans(table.last().1, before), before.len() as int)
    }
}

/// A detector for a kind, where its pattern compiles.
fn detector(kind: &'static str, pattern: &str) -> (made: Option<Detector>)
    ensures
        match made {
            Some(d) => {
                &&& regex_compiles(pattern@)
                &&& d.kind@ == kind@
                &&& regex_source(d.regex) == pattern@
            },
            None => !regex_compiles(pattern@),
        },
{
    match Regex::new(pattern) {
        Ok(regex) => Some(Detector { kind, regex }),
        Err(_) => None,
    }
}

/// The detectors of the table, where every pattern compiles.
pub fn detectors() -> (made: Option<Vec<Detector>>)
    ensures
        match made {
            Some(list) => all_compile(detector_table()) && detector_rows(list@) == detector_table(),
            None => !all_compile(detector_table()),
        },
{
    let ghost table = detector_table();
    let email = match detector("email", r"[A-Za-z0-9._%+-]+@[A-Za-z0-9.-]+\.[A-Za-z]{2,}") {
        Some(d) => d,
        None => {
            assert(!regex_compiles(table[0].1));
            return None;
        },
    };
    let ssn = match detector("ssn", r"\b\d{3}-\d{2}-\d{4}\b") {
        Some(d) => d,
        None => {
            assert(!regex_compiles(table[1].1));
            return None;
        },
    };
    let credit_card = match detector(
        "credit_card",
        r"\b\d{4}[ -]?\d{4}[ -]?\d{4}[ -]?\d{4}\b",
    ) {
        Some(d) => d,
        None => {
            assert(!regex_compiles(table[2].1));
            return None;
        },
    };
    let phone = match detector(
        "phone",
        r"\b(?:\+?1[-.\s]?)?\(?\d{3}\)?[-.\s]?\d{3}[-.\s]?\d{4}\b",
    ) {
        Some(d) => d,
        None => {
            assert(!regex_compiles(table[3].1));
            return None;
        },
    };
    let ip_address = match detector("ip_address", r"\b(?:\d{1,3}\.){3}\d{1,3}\b") {
        Some(d) => d,
        None => {
            assert(!regex_compiles(table[4].1));
            return None;
        },
    };
    let list = vec![email, ssn, credit_card, phone, ip_address];
    assert(detector_rows(list@) =~= detector_table());
    Some(list)
}

/// Every match of the detectors in the text, detector after detector.
pub fn scan_with(detectors: &Vec<Detector>, text: &str) -> (findings: Vec<PiiFinding>)
    ensures
        found(findings@) == table_findings(detector_rows(detectors@), text@),
        scan_spans_fit(detector_rows(detectors@), text@),
{
    let ghost rows = detector_rows(detectors@);
    let mut findings: Vec<PiiFinding> = Vec::new();
    assert(rows.take(0) =~= Seq::empty());
    assert(found(findings@) =~= Seq::empty());
    let mut i: usize = 0;
    while i < detectors.len()
        invariant
            0 <= i <= detectors.len(),
            rows == detector_rows(detectors@),
            found(findings@) == table_findings(rows.take(i as int), text@),
            forall|k: int|
                0 <= k < i ==> spans_fit(
                    regex_spans((#[trigger] rows[k]).1, text@),
                    text@.len() as int,
                ),
        decreases detectors.len() - i,
    {
        let ghost before = findings@;
        let matched = find_all(&detectors[i].regex, text);
        push_findings(&mut findings, detectors[i].kind, matched);
        proof {
            assert(rows.take(i + 1).drop_last() =~= rows.take(i as int));
            assert(rows.take(i + 1).last() == rows[i as int]);
            assert(found(findings@) =~= found(before) + row_findings(rows[i as int], text@));
        }
        i = i + 1;
    }
    assert(rows.take(rows.len() as int) =~= rows);
    findings
}

/// Appends a finding of the given kind for each matched text.
pub fn push_findings(findings: &mut Vec<PiiFinding>, kind: &'static str, matched: Vec<String>)
    ensures
        found(final(findings)@) == found(old(findings)@) + texts(matched@).map_values(
            |m: Seq<char>| (kind@, m),
        ),
{
    let ghost pairs = texts(matched@).map_values(|m: Seq<char>| (kind@, m));
    let ghost start = findings@;
    let mut j: usize = 0;
    assert(found(findings@) =~= found(start) + pairs.take(0));
    while j < matched.len()
        invariant
            0 <= j <= matched.len(),
            pairs == texts(matched@).map_values(|m: Seq<char>| (kind@, m)),
            found(findings@) == found(start) + pairs.take(j as int),
        decreases matched.len() - j,
    {
        let ghost before = findings@;
        findings.push(PiiFinding { kind, matched: matched[j].clone() });
        proof {
            assert(pairs[j as int] == (kind@, matched@[j as int]@));
            assert(found(findings@) =~= found(before).push(pairs[j as int]));
            assert(pairs.take(j + 1) =~= pairs.take(j as int).push(pairs[j as int]));
            assert(found(findings@) =~= found(start) + pairs.take(j + 1));
        }
        j = j + 1;
    }
    assert(pairs.take(j as int) =~= pairs);
}

/// Whether a kind is an ASCII name without a dollar sign.
pub open spec fn is_plain_kind(kind: Seq<char>) -> bool {
    is_ascii_text(kind) && !kind.contains('$')
}

/// Whether every kind of a table is a plain name.
pub open spec fn plain_kinds(table: Seq<(Seq<char>, Seq<char>)>) -> bool {
    forall|i: int| 0 <= i < table.len() ==> is_plain_kind((#[trigger] table[i]).0)
}

/// The kinds of the table are plain names.
pub proof fn lemma_table_kinds_are_plain()
    ensures
        plain_kinds(detector_table()),
{
    reveal_strlit("email");
    reveal_strlit("ssn");
    reveal_strlit("credit_card");
    reveal_strlit("phone");
    reveal_strlit("ip_address");
    assert(is_plain_kind("email"@));
    assert(is_plain_kind("ssn"@));
    assert(is_plain_kind("credit_card"@));
    assert(is_plain_kind("phone"@));
    assert(is_plain_kind("ip_address"@));
}

/// The placeholder for a kind.
fn placeholder_for(kind: &str) -> (text: String)
    requires
        is_plain_kind(kind@),
    ensures
        text@ == placeholder(kind@),
        !text@.contains('$'),
{
    let upper = to_uppercase(kind);
    let text = "[REDACTED_".to_string().concat(upper.as_str()).concat("]");
    proof {
        reveal_strlit("[REDACTED_");
        reveal_strlit("]");
        if text@.contains('$') {
            let i = choose|i: int| 0 <= i < text@.len() && text@[i] == '$';
            let k = i - "[REDACTED_"@.len();
            if 0 <= k < upper@.len() {
                assert(ascii_upper(kind@[k]) == '$');
                assert(kind@[k] == '$');
            }
        }
    }
    text
}

/// Replaces every match of the detectors with a `[REDACTED_<KIND>]`
/// placeholder, detector after detector, and returns the redacted text with
/// what was found. A detector searches the text that those before it have
/// left.
pub fn redact_with(detectors: &Vec<Detector>, text: &str) -> (redacted: (String, Vec<PiiFinding>))
    requires
        plain_kinds(detector_rows(detectors@)),
    ensures
        (redacted.0@, found(redacted.1@)) == table_redacted(detector_rows(detectors@), text@),
        table_spans_fit(detector_rows(detectors@), text@),
{
    let ghost rows = detector_rows(detectors@);
    let mut findings: Vec<PiiFinding> = Vec::new();
    let mut result = text.to_string();
    assert(rows.take(0) =~= Seq::empty());
    assert(found(findings@) =~= Seq::empty());
    let mut i: usize = 0;
    while i < detectors.len()
        invariant
            0 <= i <= detectors.len(),
            rows == detector_rows(detectors@),
            plain_kinds(rows),
            (result@, found(findings@)) == table_redacted(rows.take(i as int), text@),
            table_spans_fit(rows.take(i as int), text@),
        decreases detectors.len() - i,
    {
        let ghost before = findings@;
        let ghost row = rows[i as int];
        assert(row == (detectors@[i as int].kind@, regex_source(detectors@[i as int].regex)));
        let matched = find_all(&detectors[i].regex, result.as_str());
        push_findings(&mut findings, detectors[i].kind, matched);
        let stand_in = placeholder_for(detectors[i].kind);
        let replaced = replace_all(&detectors[i].regex, result.as_str(), stand_in.as_str());
        proof {
            assert(rows.take(i + 1).drop_last() =~= rows.take(i as int));
            assert(rows.take(i + 1).last() == row);
            assert(found(findings@) =~= found(before) + row_findings(row, result@));
            assert(replaced@ == row_redacted(row, result@));
        }
        result = replaced;
        i = i + 1;
    }
    assert(rows.take(rows.len() as int) =~= rows);
    (result, findings)
}

/// Every piece of personal data in the text, which stays as it is.
pub fn scan(text: &str) -> (findings: Vec<PiiFinding>)
    requires
        all_compile(detector_table()),
    ensures
        found(findings@) == table_findings(detector_table(), text@),
        scan_spans_fit(detector_table(), text@),
{
    let list = detectors().unwrap();
    scan_with(&list, text)
}

/// Replaces every piece of personal data with a `[REDACTED_<KIND>]`
/// placeholder and returns the redacted text with what was found.
pub fn redact(text: &str) -> (redacted: (String, Vec<PiiFinding>))
    requires
        all_compile(detector_table()),
    ensures
        (redacted.0@, found(redacted.1@)) == table_redacted(detector_table(), text@),
        table_spans_fit(detector_table(), text@),
{
    let list = detectors().unwrap();
    proof {
        lemma_table_kinds_are_plain();
    }
    redact_with(&list, text)
}

/// [`scan`], and nothing where a pattern does not compile.
pub fn try_scan(text: &str) -> (findings: Option<Vec<PiiFinding>>)
    ensures
        match findings {
            Some(list) => {
                &&& all_compile(detector_table())
                &&& found(list@) == table_findings(detector_table(), text@)
                &&& scan_spans_fit(detector_table(), text@)
            },
            None => !all_compile(detector_table()),
        },
{
    match detectors() {
        Some(_) => Some(scan(text)),
        None => None,
    }
}

/// [`redact`], and nothing where a pattern does not compile.
pub fn try_redact(text: &str) -> (redacted: Option<(String, Vec<PiiFinding>)>)
    ensures
        match redacted {
            Some(result) => {
                &&& all_compile(detector_table())
                &&& (result.0@, found(result.1@)) == table_redacted(detector_table(), text@)
                &&& table_spans_fit(detector_table(), text@)
            },
            None => !all_compile(detector_table()),
        },
{
    match detectors() {
        Some(_) => Some(redact(text)),
        None => None,
    }
}

/// Replacing each piece by itself gives the text back: what lies between the
/// spans is kept in place.
pub proof fn law_text_between_matches_is_kept(text: Seq<char>, spans: Seq<(int, int)>)
    requires
        spans_fit(spans, text.len() as int),
    ensures
        splice(text, spans, cut(text, spans)) == text,
    decreases spans.len(),
{
    if spans.len() > 0 {
        let last = spans.last();
        let head = text.take(last.0);
        let rest = spans.drop_last();
        assert forall|i: int| 0 <= i < rest.len() implies 0 <= (#[trigger] rest[i]).0 <= rest[i].1
            <= head.len() by {
            assert(rest[i] == spans[i]);
            assert(spans[i].1 <= spans[spans.len() - 1].0);
        }
        law_text_between_matches_is_kept(head, rest);
        assert forall|i: int| 0 <= i < rest.len() implies cut(head, rest)[i] == #[trigger] cut(
            text,
            spans,
        ).drop_last()[i] by {
            assert(rest[i] == spans[i]);
            assert(rest[i].1 <= head.len());
            assert(head.subrange(rest[i].0, rest[i].1) =~= text.subrange(spans[i].0, spans[i].1));
        }
        assert(cut(head, rest) =~= cut(text, spans).drop_last());
        assert(splice(text, spans, cut(text, spans)) =~= text);
    }
}

/// Redaction keeps what lies outside the findings, row by row: the text that a
/// row is given is made of its findings and of what lies between them, and it
/// leaves the same text with a placeholder in the place of each finding.
pub proof fn law_redaction_keeps_the_rest(
    table: Seq<(Seq<char>, Seq<char>)>,
    text: Seq<char>,
    k: int,
)
    requires
        table_spans_fit(table, text),
        0 <= k < table.len(),
    ensures
        ({
            let given = table_redacted(table.take(k), text).0;
            let left = table_redacted(table.take(k + 1), text).0;
            let spans = regex_spans(table[k].1, given);
            &&& spans_fit(spans, given.len() as int)
            &&& splice(given, spans, cut(given, spans)) == given
            &&& splice(given, spans, repeated(placeholder(table[k].0), spans.len())) == left
            &&& row_findings(table[k], given) == cut(given, spans).map_values(
                |m: Seq<char>| (table[k].0, m),
            )
            &&& table_redacted(table.take(k + 1), text).1 == table_redacted(table.take(k), text).1
                + row_findings(table[k], given)
        }),
    decreases table.len(),
{
    if k < table.len() - 1 {
        assert(table.drop_last().take(k) =~= table.take(k));
        assert(table.drop_last().take(k + 1) =~= table.take(k + 1));
        law_redaction_keeps_the_rest(table.drop_last(), text, k);
    } else {
        assert(table.take(k) =~= table.drop_last());
        assert(table.take(k + 1) =~= table);
        let given = table_redacted(table.take(k), text).0;
        law_text_between_matches_is_kept(given, regex_spans(table[k].1, given));
    }
}

/// Each finding of a scan is a piece of the text.
pub proof fn law_findings_are_pieces_of_the_text(
    table: Seq<(Seq<char>, Seq<char>)>,
    text: Seq<char>,
    i: int,
)
    requires
        scan_spans_fit(table, text),
        0 <= i < table_findings(table, text).len(),
    ensures
        occurs(table_findings(table, text)[i].1, text),
    decreases table.len(),
{
    let earlier = table_findings(table.drop_last(), text);
    if i < earlier.len() {
        assert forall|j: int| 0 <= j < table.drop_last().len() implies spans_fit(
            regex_spans((#[trigger] table.drop_last()[j]).1, text),
            text.len() as int,
        ) by {
            assert(table.drop_last()[j] == table[j]);
        }
        law_findings_are_pieces_of_the_text(table.drop_last(), text, i);
    } else {
        let spans = regex_spans(table[table.len() - 1].1, text);
        let span = spans[i - earlier.len()];
        let piece = table_findings(table, text)[i].1;
        assert(piece == text.subrange(span.0, span.1));
        assert(text.subrange(span.0, span.0 + piece.len()) == piece);
    }
}

/// A text in which the rows find nothing is left as it is, with no finding; and
/// redaction finds something exactly where a scan of the same text does. Both
/// begin with what the first row finds.
pub proof fn law_redaction_acts_where_scan_finds(
    table: Seq<(Seq<char>, Seq<char>)>,
    text: Seq<char>,
)
    ensures
        table_findings(table, text).len() == 0 <==> table_redacted(table, text).1.len() == 0,
        table_findings(table, text).len() == 0 ==> table_redacted(table, text).0 == text,
        table.len() > 0 ==> {
            &&& row_findings(table[0], text).is_prefix_of(table_findings(table, text))
            &&& row_findings(table[0], text).is_prefix_of(table_redacted(table, text).1)
        },
    decreases table.len(),
{
    if table.len() > 0 {
        law_redaction_acts_where_scan_finds(table.drop_last(), text);
        let (before, findings) = table_redacted(table.drop_last(), text);
        assert(table_redacted(table, text).1 == findings + row_findings(table.last(), before));
        if table_findings(table, text).len() == 0 {
            assert(regex_spans(table.last().1, text).len() == 0);
        }
        if table.len() == 1 {
            let first = row_findings(table[0], text);
            assert(table_findings(table.drop_last(), text) =~= Seq::empty());
            assert(table_findings(table, text) =~= first);
            assert(table_redacted(table, text).1 =~= first);
        } else {
            assert(table.drop_last()[0] == table[0]);
        }
    }
}

/// Whether a finding is of a kind.
pub open spec fn has_kind(kind: Seq<char>) -> spec_fn((Seq<char>, Seq<char>)) -> bool {
    |f: (Seq<char>, Seq<char>)| f.0 == kind
}

/// The findings of one kind.
pub open spec fn of_kind(findings: Seq<(Seq<char>, Seq<char>)>, kind: Seq<char>) -> Seq<
    (Seq<char>, Seq<char>),
> {
    findings.filter(has_kind(kind))
}

proof fn lemma_row_of_kind(
    earlier: Seq<(Seq<char>, Seq<char>)>,
    row: (Seq<char>, Seq<char>),
    text: Seq<char>,
    kind: Seq<char>,
)
    ensures
        of_kind(earlier + row_findings(row, text), kind) == if row.0 == kind {
            of_kind(earlier, kind) + row_findings(row, text)
        } else {
            of_kind(earlier, kind)
        },
{
    let added = row_findings(row, text);
    let wanted = has_kind(kind);
    Seq::filter_distributes_over_add(earlier, added, wanted);
    lemma_filter_all_or_none(added, wanted, row.0 == kind);
    assert(of_kind(earlier, kind) + Seq::empty() =~= of_kind(earlier, kind));
}

proof fn lemma_filter_all_or_none<A>(s: Seq<A>, wanted: spec_fn(A) -> bool, all: bool)
    requires
        forall|i: int| 0 <= i < s.len() ==> wanted(#[trigger] s[i]) == all,
    ensures
        s.filter(wanted) == if all {
            s
        } else {
            Seq::empty()
        },
    decreases s.len(),
{
    reveal(Seq::filter);
    if s.len() > 0 {
        assert forall|i: int| 0 <= i < s.drop_last().len() implies wanted(
            #[trigger] s.drop_last()[i],
        ) == all by {
            assert(s.drop_last()[i] == s[i]);
        }
        lemma_filter_all_or_none(s.drop_last(), wanted, all);
        assert(wanted(s[s.len() - 1]) == all);
        assert(s.drop_last().push(s.last()) =~= s);
    }
}

/// Of the first kind, redaction finds what a scan of the same text finds, in the
/// same order, where no other row has that kind.
pub proof fn law_first_kind_is_found_alike(table: Seq<(Seq<char>, Seq<char>)>, text: Seq<char>)
    requires
        table.len() > 0,
        forall|i: int| 0 < i < table.len() ==> (#[trigger] table[i]).0 != table[0].0,
    ensures
        of_kind(table_findings(table, text), table[0].0) == row_findings(table[0], text),
        of_kind(table_redacted(table, text).1, table[0].0) == row_findings(table[0], text),
    decreases table.len(),
{
    let kind = table[0].0;
    let (before, findings) = table_redacted(table.drop_last(), text);
    assert(table_redacted(table, text).1 == findings + row_findings(table.last(), before));
    lemma_row_of_kind(table_findings(table.drop_last(), text), table.last(), text, kind);
    lemma_row_of_kind(findings, table.last(), before, kind);
    if table.len() == 1 {
        reveal(Seq::filter);
        assert(of_kind(Seq::empty(), kind) =~= Seq::empty());
    } else {
        assert(table.drop_last()[0] == table[0]);
        assert forall|i: int| 0 < i < table.drop_last().len() implies (
        #[trigger] table.drop_last()[i]).0 != table.drop_last()[0].0 by {
            assert(table.drop_last()[i] == table[i]);
        }
        law_first_kind_is_found_alike(table.drop_last(), text);
    }
}

/// The kinds that are looked for differ from each other, and the first is
/// `email`: email addresses are found alike by a scan and by a redaction.
pub proof fn law_emails_are_found_alike(text: Seq<char>)
    ensures
        of_kind(table_findings(detector_table(), text), "email"@) == of_kind(
            table_redacted(detector_table(), text).1,
            "email"@,
        ),
{
    reveal_strlit("email");
    reveal_strlit("ssn");
    reveal_strlit("credit_card");
    reveal_strlit("phone");
    reveal_strlit("ip_address");
    assert("ssn"@.len() == 3 && "credit_card"@.len() == 11 && "ip_address"@.len() == 10);
    assert("email"@[0] == 'e' && "phone"@[0] == 'p');
    law_first_kind_is_found_alike(detector_table(), text);
}

/// What a scan finds is all of the kinds of the table.
pub proof fn law_findings_have_known_kinds(
    table: Seq<(Seq<char>, Seq<char>)>,
    text: Seq<char>,
    i: int,
)
    requires
        0 <= i < table_findings(table, text).len(),
    ensures
        exists|k: int|
            0 <= k < table.len() && (#[trigger] table[k]).0 == table_findings(table, text)[i].0,
    decreases table.len(),
{
    let earlier = table_findings(table.drop_last(), text);
    if i < earlier.len() {
        law_findings_have_known_kinds(table.drop_last(), text, i);
        let k = choose|k: int|
            0 <= k < table.drop_last().len() && (#[trigger] table.drop_last()[k]).0 == earlier[i].0;
        assert(table[k] == table.drop_last()[k]);
    } else {
        assert(table[table.len() - 1].0 == table_findings(table, text)[i].0);
    }
}

/// Five kinds of personal data are looked for, each by its own pattern.
pub proof fn law_five_kinds_are_looked_for()
    ensures
        detector_table().len() == 5,
        detector_table()[0] == ("email"@, r"[A-Za-z0-9._%+-]+@[A-Za-z0-9.-]+\.[A-Za-z]{2,}"@),
        detector_table()[1] == ("ssn"@, r"\b\d{3}-\d{2}-\d{4}\b"@),
        detector_table()[2] == (
            "credit_card"@,
            r"\b\d{4}[ -]?\d{4}[ -]?\d{4}[ -]?\d{4}\b"@,
        ),
        detector_table()[3] == (
            "phone"@,
            r"\b(?:\+?1[-.\s]?)?\(?\d{3}\)?[-.\s]?\d{3}[-.\s]?\d{4}\b"@,
        ),
        detector_table()[4] == ("ip_address"@, r"\b(?:\d{1,3}\.){3}\d{1,3}\b"@),
{
}

/// A scan reports every match of every row, under the kind of the row, and
/// nothing else: one row more adds its matches in the text, one after the other,
/// to what the rows before it report.
pub proof fn law_each_row_adds_its_matches(
    table: Seq<(Seq<char>, Seq<char>)>,
    kind: Seq<char>,
    pattern: Seq<char>,
    text: Seq<char>,
)
    ensures
        table_findings(Seq::empty(), text).len() == 0,
        ({
            let spans = regex_spans(pattern, text);
            let before = table_findings(table, text);
            let after = table_findings(table.push((kind, pattern)), text);
            &&& after.len() == before.len() + spans.len()
            &&& forall|i: int| 0 <= i < before.len() ==> #[trigger] after[i] == before[i]
            &&& forall|i: int|
                0 <= i < spans.len() ==> after[before.len() + i] == (
                    kind,
                    text.subrange((#[trigger] spans[i]).0, spans[i].1),
                )
        }),
{
    assert(table.push((kind, pattern)).drop_last() =~= table);
    assert(table.push((kind, pattern)).last() == (kind, pattern));
}

/// A redaction reports every match of every row in the text that the rows before
/// it have left, under the kind of the row, and nothing else, and puts the
/// placeholder of the kind into the place of each.
pub proof fn law_each_row_redacts_what_is_left(
    table: Seq<(Seq<char>, Seq<char>)>,
    kind: Seq<char>,
    pattern: Seq<char>,
    text: Seq<char>,
)
    ensures
        table_redacted(Seq::empty(), text).0 == text,
        table_redacted(Seq::empty(), text).1.len() == 0,
        ({
            let left = table_redacted(table, text).0;
            let spans = regex_spans(pattern, left);
            let before = table_redacted(table, text).1;
            let after = table_redacted(table.push((kind, pattern)), text).1;
            let stand_in = "[REDACTED_"@ + kind.map_values(
                |c: char| if 'a' <= c && c <= 'z' {
                    (c as int - 32) as char
                } else {
                    c
                },
            ) + "]"@;
            &&& table_redacted(table.push((kind, pattern)), text).0 == splice(
                left,
                spans,
                repeated(stand_in, spans.len()),
            )
            &&& after.len() == before.len() + spans.len()
            &&& forall|i: int| 0 <= i < before.len() ==> #[trigger] after[i] == before[i]
            &&& forall|i: int|
                0 <= i < spans.len() ==> after[before.len() + i] == (
                    kind,
                    left.subrange((#[trigger] spans[i]).0, spans[i].1),
                )
        }),
{
    let longer = table.push((kind, pattern));
    assert(longer.drop_last() =~= table);
    assert(longer.last() == (kind, pattern));
    let (left, before) = table_redacted(table, text);
    assert(table_redacted(longer, text) == (
        row_redacted((kind, pattern), left),
        before + row_findings((kind, pattern), left),
    ));
    assert(placeholder(kind) =~= "[REDACTED_"@ + kind.map_values(
        |c: char| if 'a' <= c && c <= 'z' {
            (c as int - 32) as char
        } else {
            c
        },
    ) + "]"@);
}

/// A text without spans stays, and one span more, behind the others, puts its
/// replacement between what stands before it, with the other spans replaced, and
/// what stands behind it.
pub proof fn law_spans_are_replaced_one_by_one<A>(
    text: Seq<A>,
    spans: Seq<(int, int)>,
    start: int,
    end: int,
    replacement: Seq<A>,
)
    requires
        spans_fit(spans.push((start, end)), text.len() as int),
    ensures
        splice(text, Seq::empty(), Seq::empty()) == text,
        splice(
            text,
            spans.push((start, end)),
            repeated(replacement, spans.len() + 1),
        ) == splice(text.subrange(0, start), spans, repeated(replacement, spans.len()))
            + replacement + text.subrange(end, text.len() as int),
{
    let longer = spans.push((start, end));
    assert(longer.drop_last() =~= spans);
    assert(longer.last() == (start, end));
    assert(longer[longer.len() - 1] == (start, end));
    assert(repeated(replacement, spans.len() + 1).drop_last() =~= repeated(
        replacement,
        spans.len(),
    ));
    assert(text.take(start) =~= text.subrange(0, start));
    assert(text.skip(end) =~= text.subrange(end, text.len() as int));
}

/// A list of findings is read entry by entry: the kind and the matched text of
/// each.
pub proof fn law_findings_are_read_entry_by_entry(findings: Seq<PiiFinding>)
    ensures
        found(findings).len() == findings.len(),
        forall|i: int|
            0 <= i < findings.len() ==> (#[trigger] found(findings)[i]) == (
                findings[i].kind@,
                findings[i].matched@,
            ),
{
}

/// Detectors are read entry by entry: the kind of each, and the pattern that its
/// regular expression was made from. A table compiles where each pattern does.
pub proof fn law_detectors_are_read_entry_by_entry(
    detectors: Seq<Detector>,
    table: Seq<(Seq<char>, Seq<char>)>,
)
    ensures
        detector_rows(detectors).len() == detectors.len(),
        forall|i: int|
            0 <= i < detectors.len() ==> #[trigger] detector_rows(detectors)[i] == (
                detectors[i].kind@,
                regex_source(detectors[i].regex),
            ),
        all_compile(table) <==> !exists|i: int|
            0 <= i < table.len() && !regex_compiles((#[trigger] table[i]).1),
{
}

} // verus!
