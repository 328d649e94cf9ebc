//! What a redaction keeps of the whole text: the text and the redacted text are
//! made of the same kept characters, with findings in the one and placeholders
//! in the other.
use crate::pii::{
    cut, law_redaction_acts_where_scan_finds, placeholder, regex_spans, repeated, row_findings,
    row_redacted, spans_fit, splice, table_findings, table_redacted, table_spans_fit,
};
use crate::text::occurs;
use vstd::prelude::*;
use vstd::seq_lib::lemma_multiset_commutative;

verus! {

/// A part of a redacted text: a character that was kept, or a placeholder with
/// what it stands for.
pub ghost enum Cell {
    Kept(char),
    Found { kind: Seq<char>, matched: Seq<char> },
}

impl Cell {
    /// What stood here before the redaction.
    pub open spec fn source(self) -> Seq<char> {
        match self {
            Cell::Kept(c) => seq![c],
            Cell::Found { matched, .. } => matched,
        }
    }

    /// What stands here after the redaction.
    pub open spec fn shown(self) -> Seq<char> {
        match self {
            Cell::Kept(c) => seq![c],
            Cell::Found { kind, .. } => placeholder(kind),
        }
    }

    /// For each character that stands here after the redaction, whether it
    /// belongs to a placeholder.
    pub open spec fn mask(self) -> Seq<bool> {
        match self {
            Cell::Kept(_) => seq![false],
            Cell::Found { kind, .. } => covered(kind),
        }
    }

    /// The finding, if this is a placeholder.
    pub open spec fn findings(self) -> Seq<(Seq<char>, Seq<char>)> {
        match self {
            Cell::Kept(_) => Seq::empty(),
            Cell::Found { kind, matched } => seq![(kind, matched)],
        }
    }
}

/// A mark for each character of the placeholder of a kind.
pub open spec fn covered(kind: Seq<char>) -> Seq<bool> {
    Seq::new(placeholder(kind).len(), |i: int| true)
}

/// The text before the redaction.
pub open spec fn source(cells: Seq<Cell>) -> Seq<char>
    decreases cells.len(),
{
    if cells.len() == 0 {
        Seq::empty()
    } else {
        source(cells.drop_last()) + cells.last().source()
    }
}

/// The text after the redaction.
pub open spec fn shown(cells: Seq<Cell>) -> Seq<char>
    decreases cells.len(),
{
    if cells.len() == 0 {
        Seq::empty()
    } else {
        shown(cells.drop_last()) + cells.last().shown()
    }
}

/// For each character of the text after the redaction, whether it belongs to a
/// placeholder.
pub open spec fn mask(cells: Seq<Cell>) -> Seq<bool>
    decreases cells.len(),
{
    if cells.len() == 0 {
        Seq::empty()
    } else {
        mask(cells.drop_last()) + cells.last().mask()
    }
}

/// The findings, in the order in which they stand in the text.
pub open spec fn findings_in(cells: Seq<Cell>) -> Seq<(Seq<char>, Seq<char>)>
    decreases cells.len(),
{
    if cells.len() == 0 {
        Seq::empty()
    } else {
        findings_in(cells.drop_last()) + cells.last().findings()
    }
}

/// For each character of the text that the rows of a table leave, whether it
/// belongs to a placeholder.
pub open spec fn table_mask(table: Seq<(Seq<char>, Seq<char>)>, text: Seq<char>) -> Seq<bool>
    decreases table.len(),
{
    if table.len() == 0 {
        Seq::new(text.len(), |i: int| false)
    } else {
        let before = table_redacted(table.drop_last(), text).0;
        let spans = regex_spans(table.last().1, before);
        splice(
            table_mask(table.drop_last(), text),
            spans,
            repeated(covered(table.last().0), spans.len()),
        )
    }
}

/// Whether spans are not empty and meet no marked character.
pub open spec fn spans_avoid(spans: Seq<(int, int)>, marks: Seq<bool>) -> bool {
    &&& forall|i: int| 0 <= i < spans.len() ==> (#[trigger] spans[i]).0 < spans[i].1
    &&& forall|i: int, x: int|
        0 <= i < spans.len() && (#[trigger] spans[i]).0 <= x < spans[i].1 ==> !(#[trigger] marks[x])
}

/// Whether no match of a row meets a placeholder of an earlier row.
pub open spec fn rows_keep_apart(table: Seq<(Seq<char>, Seq<char>)>, text: Seq<char>) -> bool
    decreases table.len(),
{
    table.len() > 0 ==> {
        let before = table_redacted(table.drop_last(), text).0;
        &&& rows_keep_apart(table.drop_last(), text)
        &&& spans_avoid(
            regex_spans(table.last().1, before),
            table_mask(table.drop_last(), text),
        )
    }
}

proof fn lemma_placeholder_starts_with_a_bracket(kind: Seq<char>)
    ensures
        placeholder(kind).len() > 0,
        placeholder(kind)[0] == '[',
{
    reveal_strlit("[REDACTED_");
}

proof fn lemma_concatenation(a: Seq<Cell>, b: Seq<Cell>)
    ensures
        source(a + b) == source(a) + source(b),
        shown(a + b) == shown(a) + shown(b),
        mask(a + b) == mask(a) + mask(b),
        findings_in(a + b) == findings_in(a) + findings_in(b),
    decreases b.len(),
{
    if b.len() == 0 {
        assert(a + b =~= a);
    } else {
        assert((a + b).drop_last() =~= a + b.drop_last());
        assert((a + b).last() == b.last());
        lemma_concatenation(a, b.drop_last());
        assert(source(a + b) =~= source(a) + source(b));
        assert(shown(a + b) =~= shown(a) + shown(b));
        assert(mask(a + b) =~= mask(a) + mask(b));
        assert(findings_in(a + b) =~= findings_in(a) + findings_in(b));
    }
}

proof fn lemma_single(cell: Cell)
    ensures
        source(seq![cell]) == cell.source(),
        shown(seq![cell]) == cell.shown(),
        mask(seq![cell]) == cell.mask(),
        findings_in(seq![cell]) == cell.findings(),
{
    let one = seq![cell];
    let none = Seq::<Cell>::empty();
    assert(one.drop_last() =~= none);
    assert(source(none) =~= Seq::empty());
    assert(shown(none) =~= Seq::empty());
    assert(mask(none) =~= Seq::empty());
    assert(findings_in(none) =~= Seq::empty());
    assert(source(one) =~= cell.source());
    assert(shown(one) =~= cell.shown());
    assert(mask(one) =~= cell.mask());
    assert(findings_in(one) =~= cell.findings());
}

proof fn lemma_split(cells: Seq<Cell>, p: int)
    requires
        0 <= p <= cells.len(),
    ensures
        source(cells) == source(cells.take(p)) + source(cells.skip(p)),
        shown(cells) == shown(cells.take(p)) + shown(cells.skip(p)),
        mask(cells) == mask(cells.take(p)) + mask(cells.skip(p)),
        findings_in(cells) == findings_in(cells.take(p)) + findings_in(cells.skip(p)),
{
    assert(cells.take(p) + cells.skip(p) =~= cells);
    lemma_concatenation(cells.take(p), cells.skip(p));
}

proof fn lemma_mask_covers_what_is_shown(cells: Seq<Cell>)
    ensures
        mask(cells).len() == shown(cells).len(),
    decreases cells.len(),
{
    if cells.len() > 0 {
        lemma_mask_covers_what_is_shown(cells.drop_last());
    }
}

/// A character that belongs to no placeholder is a cell of its own.
proof fn lemma_kept_character_is_a_cell(cells: Seq<Cell>, x: int) -> (p: int)
    requires
        0 <= x < shown(cells).len(),
        !mask(cells)[x],
    ensures
        0 <= p < cells.len(),
        cells[p] is Kept,
        shown(cells.take(p)).len() == x,
        shown(cells.take(p + 1)).len() == x + 1,
    decreases cells.len(),
{
    let rest = cells.drop_last();
    lemma_mask_covers_what_is_shown(rest);
    if x < shown(rest).len() {
        let p = lemma_kept_character_is_a_cell(rest, x);
        assert(rest.take(p) =~= cells.take(p));
        assert(rest.take(p + 1) =~= cells.take(p + 1));
        p
    } else {
        let p = cells.len() - 1;
        assert(cells.last().mask()[x - shown(rest).len()] == mask(cells)[x]);
        assert(cells.take(p) =~= rest);
        assert(cells.take(p + 1) =~= cells);
        p
    }
}

proof fn lemma_unmarked_cells_are_kept(cells: Seq<Cell>)
    requires
        forall|x: int| 0 <= x < mask(cells).len() ==> !(#[trigger] mask(cells)[x]),
    ensures
        source(cells) == shown(cells),
        findings_in(cells) == Seq::<(Seq<char>, Seq<char>)>::empty(),
    decreases cells.len(),
{
    if cells.len() > 0 {
        let rest = cells.drop_last();
        let n = mask(rest).len() as int;
        assert forall|x: int| 0 <= x < mask(rest).len() implies !(#[trigger] mask(rest)[x]) by {
            assert(mask(rest)[x] == mask(cells)[x]);
        }
        lemma_unmarked_cells_are_kept(rest);
        if let Cell::Found { kind, .. } = cells.last() {
            lemma_placeholder_starts_with_a_bracket(kind);
            assert(mask(cells)[n] == covered(kind)[0]);
        }
    }
}

/// One row of a redaction, on cells.
proof fn lemma_row(cells: Seq<Cell>, spans: Seq<(int, int)>, kind: Seq<char>) -> (after: Seq<Cell>)
    requires
        spans_fit(spans, shown(cells).len() as int),
        spans_avoid(spans, mask(cells)),
    ensures
        source(after) == source(cells),
        shown(after) == splice(shown(cells), spans, repeated(placeholder(kind), spans.len())),
        mask(after) == splice(mask(cells), spans, repeated(covered(kind), spans.len())),
        findings_in(after).to_multiset() == findings_in(cells).to_multiset().add(
            cut(shown(cells), spans).map_values(|m: Seq<char>| (kind, m)).to_multiset(),
        ),
    decreases spans.len(),
{
    let text = shown(cells);
    let marks = mask(cells);
    let tagged = cut(text, spans).map_values(|m: Seq<char>| (kind, m));
    lemma_mask_covers_what_is_shown(cells);
    if spans.len() == 0 {
        assert(tagged =~= Seq::empty());
        assert(tagged.to_multiset() =~= vstd::multiset::Multiset::empty()) by {
            broadcast use vstd::seq_lib::group_to_multiset_ensures;

            tagged.to_multiset_ensures();
        }
        assert(findings_in(cells).to_multiset().add(tagged.to_multiset()) =~= findings_in(
            cells,
        ).to_multiset());
        cells
    } else {
        let n = spans.len() - 1;
        let (a, b) = spans[n];
        assert(spans[n] == spans.last());
        assert(!marks[a] && !marks[b - 1]);
        let p = lemma_kept_character_is_a_cell(cells, a);
        let q = lemma_kept_character_is_a_cell(cells, b - 1) + 1;
        lemma_split(cells, p);
        lemma_split(cells, q);
        if q < p {
            assert(cells.take(p).take(q) =~= cells.take(q));
            lemma_split(cells.take(p), q);
        }
        let head = cells.take(p);
        let middle = cells.subrange(p, q);
        let tail = cells.skip(q);
        assert(head + middle =~= cells.take(q));
        lemma_concatenation(head, middle);
        lemma_mask_covers_what_is_shown(head);
        lemma_mask_covers_what_is_shown(middle);
        lemma_mask_covers_what_is_shown(tail);
        assert(shown(head) =~= text.take(a));
        assert(mask(head) =~= marks.take(a));
        assert(shown(middle) =~= text.subrange(a, b));
        assert(shown(tail) =~= text.skip(b));
        assert(mask(tail) =~= marks.skip(b));
        assert forall|x: int| 0 <= x < mask(middle).len() implies !(#[trigger] mask(middle)[x]) by {
            assert(mask(middle)[x] == marks[a + x]);
            assert(spans[n].0 <= a + x < spans[n].1);
        }
        lemma_unmarked_cells_are_kept(middle);

        let rest = spans.drop_last();
        assert forall|i: int| 0 <= i < rest.len() implies 0 <= (#[trigger] rest[i]).0 <= rest[i].1
            <= a by {
            assert(rest[i] == spans[i]);
            assert(spans[i].1 <= spans[n].0);
        }
        assert forall|i: int, x: int|
            0 <= i < rest.len() && (#[trigger] rest[i]).0 <= x < rest[i].1 implies !(
        #[trigger] mask(head)[x]) by {
            assert(rest[i] == spans[i]);
            assert(rest[i].1 <= a);
            assert(mask(head)[x] == marks[x]);
        }
        assert forall|i: int| 0 <= i < rest.len() implies (#[trigger] rest[i]).0 < rest[i].1 by {
            assert(rest[i] == spans[i]);
        }
        let head_after = lemma_row(head, rest, kind);
        let found = Cell::Found { kind, matched: text.subrange(a, b) };
        let one = seq![found];
        let after = head_after + one + tail;
        lemma_concatenation(head_after, one);
        lemma_concatenation(head_after + one, tail);
        lemma_single(found);
        assert(source(after) =~= source(cells));
        assert(repeated(placeholder(kind), spans.len()).drop_last() =~= repeated(
            placeholder(kind),
            rest.len(),
        ));
        assert(repeated(covered(kind), spans.len()).drop_last() =~= repeated(
            covered(kind),
            rest.len(),
        ));

        let tagged_head = cut(shown(head), rest).map_values(|m: Seq<char>| (kind, m));
        assert forall|i: int| 0 <= i < rest.len() implies tagged_head[i] == #[trigger] tagged[i] by {
            assert(rest[i] == spans[i]);
            assert(rest[i].1 <= a);
            assert(shown(head).subrange(rest[i].0, rest[i].1) =~= text.subrange(
                spans[i].0,
                spans[i].1,
            ));
        }
        assert(tagged =~= tagged_head + findings_in(one));
        lemma_multiset_commutative(tagged_head, findings_in(one));
        lemma_multiset_commutative(findings_in(head_after), findings_in(one));
        lemma_multiset_commutative(findings_in(head_after) + findings_in(one), findings_in(tail));
        assert(findings_in(cells) =~= findings_in(head) + findings_in(tail));
        lemma_multiset_commutative(findings_in(head), findings_in(tail));
        assert(findings_in(after).to_multiset() =~= findings_in(cells).to_multiset().add(
            tagged.to_multiset(),
        ));
        after
    }
}

/// Cells with one more kept character.
proof fn lemma_keep(cells: Seq<Cell>, c: char) -> (longer: Seq<Cell>)
    ensures
        source(longer) == source(cells).push(c),
        shown(longer) == shown(cells).push(c),
        mask(longer) == mask(cells).push(false),
        findings_in(longer) == findings_in(cells),
{
    let one = Cell::Kept(c);
    let longer = cells + seq![one];
    lemma_single(one);
    lemma_concatenation(cells, seq![one]);
    assert(source(longer) =~= source(cells).push(c));
    assert(shown(longer) =~= shown(cells).push(c));
    assert(mask(longer) =~= mask(cells).push(false));
    assert(findings_in(longer) =~= findings_in(cells));
    longer
}

/// The cells of a text in which nothing is found.
proof fn lemma_plain_cells(text: Seq<char>) -> (cells: Seq<Cell>)
    ensures
        source(cells) == text,
        shown(cells) == text,
        mask(cells) == Seq::new(text.len(), |i: int| false),
        findings_in(cells) == Seq::<(Seq<char>, Seq<char>)>::empty(),
    decreases text.len(),
{
    if text.len() == 0 {
        let none = Seq::<Cell>::empty();
        assert(source(none) =~= text);
        assert(shown(none) =~= text);
        assert(mask(none) =~= Seq::new(text.len(), |i: int| false));
        assert(findings_in(none) =~= Seq::empty());
        none
    } else {
        let before = lemma_plain_cells(text.drop_last());
        let all = lemma_keep(before, text.last());
        assert(text.drop_last().push(text.last()) =~= text);
        assert(mask(all) =~= Seq::new(text.len(), |i: int| false));
        all
    }
}

/// Whether cells tell how a table redacts a text: they are the text before, the
/// redacted text after, and their findings are those of the redaction, in
/// whatever order.
pub open spec fn explains(
    cells: Seq<Cell>,
    table: Seq<(Seq<char>, Seq<char>)>,
    text: Seq<char>,
) -> bool {
    &&& source(cells) == text
    &&& shown(cells) == table_redacted(table, text).0
    &&& mask(cells) == table_mask(table, text)
    &&& findings_in(cells).to_multiset() == table_redacted(table, text).1.to_multiset()
}

/// Redaction keeps everything outside the findings: where no match meets a
/// placeholder of an earlier row, the text and the redacted text are made of
/// the same kept characters, with a finding in the one wherever the other has
/// the placeholder of its kind, and these are the findings that the redaction
/// reports.
pub proof fn law_redaction_replaces_findings_alone(
    table: Seq<(Seq<char>, Seq<char>)>,
    text: Seq<char>,
)
    requires
        table_spans_fit(table, text),
        rows_keep_apart(table, text),
    ensures
        exists|cells: Seq<Cell>| explains(cells, table, text),
    decreases table.len(),
{
    if table.len() == 0 {
        let cells = lemma_plain_cells(text);
        assert(explains(cells, table, text));
    } else {
        let earlier = table.drop_last();
        law_redaction_replaces_findings_alone(earlier, text);
        let cells = choose|cells: Seq<Cell>| explains(cells, earlier, text);
        let (before, findings) = table_redacted(earlier, text);
        let row = table.last();
        let spans = regex_spans(row.1, before);
        let after = lemma_row(cells, spans, row.0);
        let added = row_findings(row, before);
        assert(added =~= cut(before, spans).map_values(|m: Seq<char>| (row.0, m)));
        assert(table_redacted(table, text) == (row_redacted(row, before), findings + added));
        lemma_multiset_commutative(findings, added);
        assert(explains(after, table, text));
    }
}

proof fn lemma_finding_is_a_piece(cells: Seq<Cell>, i: int)
    requires
        0 <= i < findings_in(cells).len(),
    ensures
        occurs(findings_in(cells)[i].1, source(cells)),
    decreases cells.len(),
{
    let rest = cells.drop_last();
    let whole = source(cells);
    let piece = findings_in(cells)[i].1;
    if i < findings_in(rest).len() {
        lemma_finding_is_a_piece(rest, i);
        let at = choose|at: int|
            0 <= at <= source(rest).len() - piece.len() && #[trigger] source(rest).subrange(
                at,
                at + piece.len(),
            ) == piece;
        assert(whole.subrange(at, at + piece.len()) =~= source(rest).subrange(
            at,
            at + piece.len(),
        ));
    } else {
        let at = source(rest).len() as int;
        assert(whole.subrange(at, at + piece.len()) =~= piece);
    }
}

/// Each finding of a redaction is a piece of the text that was redacted, where
/// no match meets a placeholder of an earlier row.
pub proof fn law_redacted_findings_are_pieces_of_the_text(
    table: Seq<(Seq<char>, Seq<char>)>,
    text: Seq<char>,
    i: int,
)
    requires
        table_spans_fit(table, text),
        rows_keep_apart(table, text),
        0 <= i < table_redacted(table, text).1.len(),
    ensures
        occurs(table_redacted(table, text).1[i].1, text),
{
    broadcast use vstd::seq_lib::group_to_multiset_ensures;

    law_redaction_replaces_findings_alone(table, text);
    let cells = choose|cells: Seq<Cell>| explains(cells, table, text);
    let findings = table_redacted(table, text).1;
    findings.to_multiset_ensures();
    findings_in(cells).to_multiset_ensures();
    assert(findings.contains(findings[i]));
    assert(findings.to_multiset().count(findings[i]) > 0);
    assert(findings_in(cells).contains(findings[i]));
    let k = choose|k: int|
        0 <= k < findings_in(cells).len() && findings_in(cells)[k] == findings[i];
    lemma_finding_is_a_piece(cells, k);
}

/// How often a character stands in a text.
pub open spec fn occurrences(text: Seq<char>, c: char) -> nat
    decreases text.len(),
{
    if text.len() == 0 {
        0
    } else {
        occurrences(text.drop_last(), c) + if text.last() == c {
            1nat
        } else {
            0
        }
    }
}

proof fn lemma_occurrences_add(a: Seq<char>, b: Seq<char>, c: char)
    ensures
        occurrences(a + b, c) == occurrences(a, c) + occurrences(b, c),
    decreases b.len(),
{
    if b.len() == 0 {
        assert(a + b =~= a);
    } else {
        assert((a + b).drop_last() =~= a + b.drop_last());
        lemma_occurrences_add(a, b.drop_last(), c);
    }
}

proof fn lemma_no_occurrence(text: Seq<char>, c: char)
    requires
        !text.contains(c),
    ensures
        occurrences(text, c) == 0,
    decreases text.len(),
{
    if text.len() > 0 {
        assert(text[text.len() - 1] != c);
        assert forall|i: int| 0 <= i < text.drop_last().len() implies text.drop_last()[i] != c by {
            assert(text[i] != c);
        }
        lemma_no_occurrence(text.drop_last(), c);
    }
}

proof fn lemma_placeholders_add_brackets(cells: Seq<Cell>)
    requires
        forall|i: int|
            0 <= i < findings_in(cells).len() ==> !(#[trigger] findings_in(cells)[i]).1.contains('['),
    ensures
        occurrences(shown(cells), '[') >= occurrences(source(cells), '[') + findings_in(cells).len(),
    decreases cells.len(),
{
    if cells.len() > 0 {
        let rest = cells.drop_last();
        assert forall|i: int| 0 <= i < findings_in(rest).len() implies !(
        #[trigger] findings_in(rest)[i]).1.contains('[') by {
            assert(findings_in(rest)[i] == findings_in(cells)[i]);
        }
        lemma_placeholders_add_brackets(rest);
        lemma_occurrences_add(source(rest), cells.last().source(), '[');
        lemma_occurrences_add(shown(rest), cells.last().shown(), '[');
        if let Cell::Found { kind, matched } = cells.last() {
            let n = findings_in(rest).len() as int;
            assert(findings_in(cells)[n] == (kind, matched));
            lemma_no_occurrence(matched, '[');
            lemma_placeholder_starts_with_a_bracket(kind);
            let stand_in = placeholder(kind);
            assert(stand_in =~= seq!['['] + stand_in.skip(1));
            lemma_occurrences_add(seq!['['], stand_in.skip(1), '[');
            assert(seq!['['].drop_last() =~= Seq::empty());
            reveal_with_fuel(occurrences, 2);
        }
    }
}

/// A redaction changes the text exactly where it finds something, and where a
/// scan does, as long as no match meets a placeholder of an earlier row and no
/// finding holds an opening bracket.
pub proof fn law_text_is_unchanged_where_nothing_is_found(
    table: Seq<(Seq<char>, Seq<char>)>,
    text: Seq<char>,
)
    requires
        table_spans_fit(table, text),
        rows_keep_apart(table, text),
        forall|i: int|
            0 <= i < table_redacted(table, text).1.len() ==> !(#[trigger] table_redacted(
                table,
                text,
            ).1[i]).1.contains('['),
    ensures
        table_redacted(table, text).0 == text <==> table_redacted(table, text).1.len() == 0,
        table_redacted(table, text).0 == text <==> table_findings(table, text).len() == 0,
{
    broadcast use vstd::seq_lib::group_to_multiset_ensures;

    law_redaction_acts_where_scan_finds(table, text);
    law_redaction_replaces_findings_alone(table, text);
    let cells = choose|cells: Seq<Cell>| explains(cells, table, text);
    let findings = table_redacted(table, text).1;
    findings.to_multiset_ensures();
    findings_in(cells).to_multiset_ensures();
    assert(findings_in(cells).len() == findings.len());
    assert forall|i: int| 0 <= i < findings_in(cells).len() implies !(
    #[trigger] findings_in(cells)[i]).1.contains('[') by {
        let finding = findings_in(cells)[i];
        assert(findings_in(cells).contains(finding));
        assert(findings.to_multiset().count(finding) > 0);
        assert(findings.contains(finding));
        let k = choose|k: int| 0 <= k < findings.len() && findings[k] == finding;
        assert(!table_redacted(table, text).1[k].1.contains('['));
    }
    lemma_placeholders_add_brackets(cells);
}

/// Where nothing is left to find in a redacted text, redacting it again changes
/// nothing and finds nothing.
pub proof fn law_redacting_again_changes_nothing(
    table: Seq<(Seq<char>, Seq<char>)>,
    text: Seq<char>,
)
    requires
        table_findings(table, table_redacted(table, text).0).len() == 0,
    ensures
        table_redacted(table, table_redacted(table, text).0).0 == table_redacted(table, text).0,
        table_redacted(table, table_redacted(table, text).0).1.len() == 0,
{
    law_redaction_acts_where_scan_finds(table, table_redacted(table, text).0);
}

} // verus!
