//! What holds of every report: the order of its entries, and the gutter
//! they share.

use crate::engine::diagnostics::output::{
    blank_bar, insert_by_line, lemma_smaller_prefix, line_bar, max_line_number, smaller_prefix,
    sort_by_line,
    ErrorBuilderView, ErrorLineView,
};
use crate::engine::text::{decimal, lemma_decimal_len, pad_right};
use vstd::prelude::*;
use vstd::seq_lib::*;

verus! {

/// Line numbers never go down from one entry to the next.
pub open spec fn ascending(entries: Seq<ErrorLineView>) -> bool {
    forall|i: int, j: int|
        0 <= i < j < entries.len() ==> (#[trigger] entries[i]).line_number() <= (
        #[trigger] entries[j]).line_number()
}

/// The entries of line `line_number`, in the order in which they stand.
pub open spec fn entries_of_line(entries: Seq<ErrorLineView>, line_number: nat) -> Seq<
    ErrorLineView,
> {
    entries.filter(|entry: ErrorLineView| entry.line_number() == line_number)
}

/// Before the index [`smaller_prefix`] every line number is smaller, and the
/// entry at it, if there is one, has a line number that is not.
pub proof fn lemma_smaller_prefix_bounds(line_number: nat, entries: Seq<ErrorLineView>)
    ensures
        smaller_prefix(line_number, entries) <= entries.len(),
        forall|i: int|
            0 <= i < smaller_prefix(line_number, entries) ==> (#[trigger] entries[i]).line_number()
                < line_number,
        smaller_prefix(line_number, entries) < entries.len() ==> line_number
            <= entries[smaller_prefix(line_number, entries) as int].line_number(),
    decreases entries.len(),
{
    if entries.len() == 0 || line_number <= entries[0].line_number() {
    } else {
        let rest = entries.drop_first();
        lemma_smaller_prefix_bounds(line_number, rest);
        let at = smaller_prefix(line_number, rest) as int;
        assert forall|i: int| 0 <= i < at + 1 implies (#[trigger] entries[i]).line_number()
            < line_number by {
            if i > 0 {
                assert(entries[i] == rest[i - 1]);
            }
        }
        if at < rest.len() {
            assert(entries[at + 1] == rest[at]);
        }
    }
}

/// Inserting an entry into entries in ascending order leaves them in
/// ascending order.
pub proof fn lemma_insert_keeps_ascending(entry: ErrorLineView, sorted: Seq<ErrorLineView>)
    requires
        ascending(sorted),
    ensures
        ascending(insert_by_line(entry, sorted)),
{
    lemma_smaller_prefix_bounds(entry.line_number(), sorted);
    let at = smaller_prefix(entry.line_number(), sorted) as int;
    let out = insert_by_line(entry, sorted);
    assert forall|i: int, j: int| 0 <= i < j < out.len() implies (#[trigger] out[i]).line_number()
        <= (#[trigger] out[j]).line_number() by {
        if j < at {
            assert(out[i] == sorted[i] && out[j] == sorted[j]);
        } else if j == at {
            assert(out[i] == sorted[i]);
        } else if i < at {
            assert(out[i] == sorted[i] && out[j] == sorted[j - 1]);
            assert(sorted[i].line_number() < entry.line_number());
            assert(entry.line_number() <= sorted[at].line_number());
            if at < j - 1 {
                assert(sorted[at].line_number() <= sorted[j - 1].line_number());
            }
        } else if i == at {
            assert(out[j] == sorted[j - 1]);
            if at < j - 1 {
                assert(sorted[at].line_number() <= sorted[j - 1].line_number());
            }
        } else {
            assert(out[i] == sorted[i - 1] && out[j] == sorted[j - 1]);
        }
    }
}

/// A report lists its entries in ascending order of line number, whatever
/// the order in which they were added.
pub proof fn lemma_sort_ascending(entries: Seq<ErrorLineView>)
    ensures
        ascending(sort_by_line(entries)),
        sort_by_line(entries).len() == entries.len(),
    decreases entries.len(),
{
    if entries.len() > 0 {
        lemma_sort_ascending(entries.drop_first());
        lemma_insert_keeps_ascending(entries[0], sort_by_line(entries.drop_first()));
        lemma_smaller_prefix_bounds(entries[0].line_number(), sort_by_line(entries.drop_first()));
    }
}

/// A report lists every entry that was added, as often as it was added, and
/// nothing else.
pub proof fn lemma_sort_keeps_entries(entries: Seq<ErrorLineView>)
    ensures
        sort_by_line(entries).to_multiset() == entries.to_multiset(),
    decreases entries.len(),
{
    broadcast use vstd::multiset::group_multiset_axioms;

    if entries.len() == 0 {
    } else {
        let rest = entries.drop_first();
        let sorted = sort_by_line(rest);
        lemma_sort_keeps_entries(rest);
        lemma_smaller_prefix_bounds(entries[0].line_number(), sorted);
        let at = smaller_prefix(entries[0].line_number(), sorted) as int;
        to_multiset_insert(sorted, at, entries[0]);
        assert(entries =~= rest.insert(0, entries[0]));
        to_multiset_insert(rest, 0, entries[0]);
    }
}

/// Where no entry is of line `line_number`, none is listed for it.
proof fn lemma_no_entries_of_line(entries: Seq<ErrorLineView>, line_number: nat)
    requires
        forall|i: int|
            0 <= i < entries.len() ==> (#[trigger] entries[i]).line_number() != line_number,
    ensures
        entries_of_line(entries, line_number) == Seq::<ErrorLineView>::empty(),
    decreases entries.len(),
{
    reveal(Seq::filter);
    if entries.len() > 0 {
        let rest = entries.drop_last();
        assert forall|i: int| 0 <= i < rest.len() implies (#[trigger] rest[i]).line_number()
            != line_number by {
            assert(rest[i] == entries[i]);
        }
        lemma_no_entries_of_line(rest, line_number);
        assert(entries.last() == entries[entries.len() - 1]);
    }
}

/// An entry that is inserted comes before the entries of its own line that
/// were there, and leaves the entries of other lines as they were.
pub proof fn lemma_insert_entries_of_line(
    entry: ErrorLineView,
    sorted: Seq<ErrorLineView>,
    line_number: nat,
)
    ensures
        entries_of_line(insert_by_line(entry, sorted), line_number) == if entry.line_number()
            == line_number {
            seq![entry] + entries_of_line(sorted, line_number)
        } else {
            entries_of_line(sorted, line_number)
        },
{
    let pred = |e: ErrorLineView| e.line_number() == line_number;
    lemma_smaller_prefix_bounds(entry.line_number(), sorted);
    let at = smaller_prefix(entry.line_number(), sorted) as int;
    let front = sorted.take(at);
    let back = sorted.skip(at);
    assert(sorted =~= front + back);
    assert(insert_by_line(entry, sorted) =~= (front + seq![entry]) + back);
    Seq::filter_distributes_over_add(front, back, pred);
    Seq::filter_distributes_over_add(front + seq![entry], back, pred);
    Seq::filter_distributes_over_add(front, seq![entry], pred);
    assert(seq![entry].filter(pred) == if pred(entry) {
        seq![entry]
    } else {
        Seq::<ErrorLineView>::empty()
    }) by {
        reveal_with_fuel(Seq::filter, 2);
        assert(seq![entry].drop_last() =~= Seq::<ErrorLineView>::empty());
        assert(seq![entry].last() == entry);
        assert(Seq::<ErrorLineView>::empty().push(entry) =~= seq![entry]);
    }
    if entry.line_number() == line_number {
        assert forall|i: int| 0 <= i < front.len() implies (#[trigger] front[i]).line_number()
            != line_number by {
            assert(front[i] == sorted[i]);
        }
        lemma_no_entries_of_line(front, line_number);
        assert(Seq::<ErrorLineView>::empty() + seq![entry] =~= seq![entry]);
        assert(Seq::<ErrorLineView>::empty() + back.filter(pred) =~= back.filter(pred));
    } else {
        assert(front.filter(pred) + Seq::<ErrorLineView>::empty() =~= front.filter(pred));
    }
}

/// The entries of one line are listed in the order in which they were
/// added.
pub proof fn lemma_sort_stable(entries: Seq<ErrorLineView>, line_number: nat)
    ensures
        entries_of_line(sort_by_line(entries), line_number) == entries_of_line(
            entries,
            line_number,
        ),
    decreases entries.len(),
{
    let pred = |e: ErrorLineView| e.line_number() == line_number;
    if entries.len() > 0 {
        let rest = entries.drop_first();
        lemma_sort_stable(rest, line_number);
        lemma_insert_entries_of_line(entries[0], sort_by_line(rest), line_number);
        assert(entries =~= seq![entries[0]] + rest);
        Seq::filter_distributes_over_add(seq![entries[0]], rest, pred);
        assert(seq![entries[0]].filter(pred) == if pred(entries[0]) {
            seq![entries[0]]
        } else {
            Seq::<ErrorLineView>::empty()
        }) by {
            reveal_with_fuel(Seq::filter, 2);
            assert(seq![entries[0]].drop_last() =~= Seq::<ErrorLineView>::empty());
            assert(seq![entries[0]].last() == entries[0]);
            assert(Seq::<ErrorLineView>::empty().push(entries[0]) =~= seq![entries[0]]);
        }
        if !pred(entries[0]) {
            assert(Seq::<ErrorLineView>::empty() + rest.filter(pred) =~= rest.filter(pred));
        }
    }
}

/// Entries that are in ascending order already are listed as they stand.
pub proof fn lemma_sort_of_ascending(entries: Seq<ErrorLineView>)
    requires
        ascending(entries),
    ensures
        sort_by_line(entries) == entries,
    decreases entries.len(),
{
    if entries.len() > 0 {
        let rest = entries.drop_first();
        assert forall|i: int, j: int| 0 <= i < j < rest.len() implies (
        #[trigger] rest[i]).line_number() <= (#[trigger] rest[j]).line_number() by {
            assert(rest[i] == entries[i + 1] && rest[j] == entries[j + 1]);
        }
        lemma_sort_of_ascending(rest);
        if rest.len() > 0 {
            assert(rest[0] == entries[1]);
        }
        lemma_smaller_prefix(entries[0].line_number(), rest, 0);
        assert(rest.insert(0, entries[0]) =~= entries);
    }
}

/// No line number is larger than [`max_line_number`], and some entry has it
/// where there is an entry at all.
pub proof fn lemma_max_line_number(entries: Seq<ErrorLineView>)
    ensures
        forall|i: int|
            0 <= i < entries.len() ==> (#[trigger] entries[i]).line_number() <= max_line_number(
                entries,
            ),
        entries.len() > 0 ==> exists|i: int|
            0 <= i < entries.len() && (#[trigger] entries[i]).line_number() == max_line_number(
                entries,
            ),
    decreases entries.len(),
{
    if entries.len() > 0 {
        let rest = entries.drop_last();
        lemma_max_line_number(rest);
        assert forall|i: int| 0 <= i < entries.len() implies (#[trigger] entries[i]).line_number()
            <= max_line_number(entries) by {
            if i < rest.len() {
                assert(entries[i] == rest[i]);
            }
        }
        if entries.last().line_number() > max_line_number(rest) || rest.len() == 0 {
            assert(entries[entries.len() - 1].line_number() == max_line_number(entries));
        } else {
            let i = choose|i: int|
                0 <= i < rest.len() && (#[trigger] rest[i]).line_number() == max_line_number(rest);
            assert(entries[i] == rest[i]);
        }
    }
}

/// The largest line number does not depend on the order of the entries.
pub proof fn lemma_max_line_number_of_sort(entries: Seq<ErrorLineView>)
    ensures
        max_line_number(sort_by_line(entries)) == max_line_number(entries),
{
    broadcast use group_to_multiset_ensures;

    let sorted = sort_by_line(entries);
    lemma_sort_keeps_entries(entries);
    lemma_sort_ascending(entries);
    lemma_max_line_number(entries);
    lemma_max_line_number(sorted);
    if entries.len() > 0 {
        let i = choose|i: int|
            0 <= i < entries.len() && (#[trigger] entries[i]).line_number() == max_line_number(
                entries,
            );
        assert(entries.contains(entries[i]));
        assert(sorted.to_multiset().count(entries[i]) > 0);
        assert(sorted.contains(entries[i]));
        let j = choose|j: int|
            0 <= j < sorted.len() && (#[trigger] sorted[j]).line_number() == max_line_number(
                sorted,
            );
        assert(sorted.contains(sorted[j]));
        assert(entries.to_multiset().count(sorted[j]) > 0);
        assert(entries.contains(sorted[j]));
    }
}

/// Rendering a report a second time gives the same text as the first time,
/// and leaves the builder as the first rendering left it.
pub proof fn lemma_build_idempotent(builder: ErrorBuilderView)
    ensures
        builder.built().rendered() == builder.rendered(),
        builder.built().built() == builder.built(),
{
    lemma_sort_ascending(builder.error_lines);
    lemma_sort_of_ascending(sort_by_line(builder.error_lines));
    lemma_max_line_number_of_sort(builder.error_lines);
}

/// Every line number of a report fills the gutter exactly, so that the bars
/// of all rows stand in one column.
pub proof fn lemma_gutter_alignment(builder: ErrorBuilderView, i: int)
    requires
        0 <= i < builder.error_lines.len(),
    ensures
        builder.gutter() >= 4,
        builder.gutter() >= builder.error_lines[i].line_number(),
        pad_right(decimal(builder.error_lines[i].line_number()), builder.gutter(), ' ').len()
            == builder.gutter(),
        line_bar(builder.error_lines[i].line_number(), builder.gutter()).len() == blank_bar(
            builder.gutter(),
        ).len(),
{
    lemma_max_line_number(builder.error_lines);
    lemma_decimal_len(builder.error_lines[i].line_number());
}

} // verus!
