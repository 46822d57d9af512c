//! How texts, paths and names are put together and taken apart.

use crate::fault::names_of;
use crate::fault::storage_planned_segment_is_final;
use crate::fault::string_views;
use crate::fault::OrphanCleanupReport;
use crate::fault::StorageFaultController;
use crate::identity::PhysicalIdentity;
use crate::ids::GlobalDocId;
use crate::ids::GlobalRowId;
use crate::ids::RowSource;
use crate::observations::HybridScoreObserver;
use crate::paths::component_start;
use crate::paths::file_name;
use crate::paths::file_name_spec;
use crate::paths::join;
use crate::text::parse_u32;
use crate::text::push_decimal;
use crate::text::split;
use crate::text::split_chars;
use crate::text::split_once_chars;
use crate::text::texts;
use crate::text::NumberFault;
use vstd::prelude::*;

verus! {

/// A number that is written is read back as it was.
pub proof fn lemma_a_written_number_is_read_back(
    out: &mut String,
    n: u32,
    chars: &Vec<char>,
    result: Result<u32, NumberFault>,
)
    requires
        call_ensures(push_decimal, (out, n as u128), ()),
        old(out)@.len() == 0,
        chars@ == final(out)@,
        call_ensures(parse_u32, (chars,), result),
    ensures
        result == Ok::<u32, NumberFault>(n),
{
    assert(final(out)@ =~= crate::text::decimal(n as nat));
    crate::text::lemma_parse_of_decimal(n);
}

/// Texts with a separator between each two.
pub open spec fn joined_by(parts: Seq<Seq<char>>, sep: char) -> Seq<char>
    decreases parts.len(),
{
    if parts.len() == 0 {
        Seq::empty()
    } else if parts.len() == 1 {
        parts[0]
    } else {
        joined_by(parts.drop_last(), sep).push(sep) + parts.last()
    }
}

proof fn lemma_split_parts_join(s: Seq<char>, sep: char)
    ensures
        split(s, sep).len() > 0,
        joined_by(split(s, sep), sep) == s,
        forall|i: int| 0 <= i < split(s, sep).len() ==> !(#[trigger] split(s, sep)[i]).contains(sep),
    decreases s.len(),
{
    let all = split(s, sep);
    if s.len() == 0 {
        assert(all[0].len() == 0);
    } else {
        let rest = split(s.drop_last(), sep);
        lemma_split_parts_join(s.drop_last(), sep);
        if s.last() == sep {
            assert(all.drop_last() =~= rest);
            assert(joined_by(all, sep) =~= joined_by(rest, sep).push(sep));
            assert(s =~= s.drop_last().push(sep));
            assert forall|i: int| 0 <= i < all.len() implies !(#[trigger] all[i]).contains(sep) by {
                if i < rest.len() {
                    assert(all[i] == rest[i]);
                }
            }
        } else {
            let grown = rest.last().push(s.last());
            assert(all.drop_last() =~= rest.drop_last());
            assert(all.last() == grown);
            assert(s =~= s.drop_last().push(s.last()));
            if rest.len() == 1 {
                assert(joined_by(all, sep) == grown);
                assert(joined_by(rest, sep) == rest[0]);
            } else {
                let front = joined_by(rest.drop_last(), sep).push(sep);
                assert(joined_by(rest, sep) == front + rest.last());
                assert(joined_by(all, sep) == front + grown);
                assert(front + grown =~= (front + rest.last()).push(s.last()));
            }
            assert forall|i: int| 0 <= i < all.len() implies !(#[trigger] all[i]).contains(sep) by {
                if i < rest.len() - 1 {
                    assert(all[i] == rest[i]);
                } else {
                    assert(!rest[rest.len() - 1].contains(sep));
                    if grown.contains(sep) {
                        let at = choose|at: int| 0 <= at < grown.len() && grown[at] == sep;
                        assert(rest.last()[at] == sep);
                    }
                }
            }
        }
    }
}

/// The parts of a text hold no separator, and with separators between them they are the
/// text.
pub proof fn lemma_the_parts_of_a_text_are_the_text(
    chars: &Vec<char>,
    end: usize,
    sep: char,
    parts: Vec<Vec<char>>,
)
    requires
        call_ensures(split_chars, (chars, end, sep), parts),
    ensures
        joined_by(texts(parts@), sep) == chars@.take(end as int),
        forall|i: int| 0 <= i < parts@.len() ==> !(#[trigger] parts@[i])@.contains(sep),
{
    lemma_split_parts_join(chars@.take(end as int), sep);
    assert forall|i: int| 0 <= i < parts@.len() implies !(#[trigger] parts@[i])@.contains(sep) by {
        assert(texts(parts@)[i] == parts@[i]@);
    }
}

/// A text is cut at its first separator, and into nothing where it has none.
pub proof fn lemma_a_text_is_cut_at_its_first_separator(
    chars: &Vec<char>,
    sep: char,
    result: Option<(Vec<char>, Vec<char>)>,
)
    requires
        call_ensures(split_once_chars, (chars, sep), result),
    ensures
        result is Some <==> chars@.contains(sep),
        result matches Some(pair) ==> pair.0@.push(sep) + pair.1@ == chars@ && !pair.0@.contains(
            sep,
        ),
{
    if chars@.contains(sep) {
        let at = chars@.index_of_first(sep)->0;
        chars@.index_of_first_ensures(sep);
        assert(chars@.take(at).push(sep) + chars@.skip(at + 1) =~= chars@);
        if chars@.take(at).contains(sep) {
            let i = choose|i: int| 0 <= i < at && chars@.take(at)[i] == sep;
            assert(chars@[i] == sep);
        }
    }
}

proof fn lemma_a_plain_name_is_the_last_component(directory: Seq<char>, name: Seq<char>)
    requires
        !name.contains('/'),
        directory.len() == 0 || directory.last() == '/',
    ensures
        component_start(directory + name) == directory.len(),
    decreases name.len(),
{
    let path = directory + name;
    if name.len() == 0 {
        assert(path =~= directory);
    } else {
        assert(path.last() == name.last());
        assert(name[name.len() - 1] == name.last());
        assert(path.drop_last() =~= directory + name.drop_last());
        assert forall|i: int| 0 <= i < name.drop_last().len() implies name.drop_last()[i] != '/' by {
            assert(name[i] == name.drop_last()[i]);
        }
        lemma_a_plain_name_is_the_last_component(directory, name.drop_last());
    }
}

/// The file name of a joined path is the name that was joined, for every name that is one
/// component; and the path starts with the directory and ends with the name.
pub proof fn lemma_a_joined_path_names_its_file(
    directory: &str,
    name: &str,
    path: String,
    joined_path: &str,
    found: Option<Vec<char>>,
)
    requires
        call_ensures(join, (directory, name), path),
        joined_path@ == path@,
        call_ensures(file_name, (joined_path,), found),
        name@.len() > 0,
        !name@.contains('/'),
        name@ != seq!['.'],
        name@ != seq!['.', '.'],
    ensures
        found is Some && found->0@ == name@,
        path@.len() >= directory@.len() + name@.len(),
        path@.take(directory@.len() as int) == directory@,
        path@.skip(path@.len() - name@.len()) == name@,
{
    let front = if directory@.len() == 0 || directory@.last() == '/' {
        directory@
    } else {
        directory@.push('/')
    };
    assert(path@ == front + name@);
    lemma_a_plain_name_is_the_last_component(front, name@);
    assert(path@.last() == name@[name@.len() - 1]);
    assert(path@.skip(front.len() as int) =~= name@);
    assert(file_name_spec(path@) == Some(name@));
    assert(path@.take(directory@.len() as int) =~= directory@);
    assert(path@.skip(path@.len() - name@.len()) =~= name@);
}

proof fn lemma_names_are_those_of_the_paths(paths: Seq<String>, i: int)
    ensures
        0 <= i < paths.len() && file_name_spec(paths[i]@) is Some ==> names_of(paths).contains(
            file_name_spec(paths[i]@)->0,
        ),
        forall|n: int|
            0 <= n < names_of(paths).len() ==> exists|j: int|
                0 <= j < paths.len() && file_name_spec((#[trigger] paths[j])@) == Some(
                    #[trigger] names_of(paths)[n],
                ),
        names_of(paths).len() <= paths.len(),
    decreases paths.len(),
{
    if paths.len() > 0 {
        let rest = paths.drop_last();
        lemma_names_are_those_of_the_paths(rest, i);
        let (earlier, all) = (names_of(rest), names_of(paths));
        if 0 <= i < paths.len() && file_name_spec(paths[i]@) is Some {
            let name = file_name_spec(paths[i]@)->0;
            if i < rest.len() {
                assert(rest[i] == paths[i]);
                let at = choose|at: int| 0 <= at < earlier.len() && earlier[at] == name;
                assert(all[at] == name);
            } else {
                assert(all[all.len() - 1] == name);
            }
        }
        assert forall|n: int| 0 <= n < all.len() implies exists|j: int|
            0 <= j < paths.len() && file_name_spec((#[trigger] paths[j])@) == Some(
                #[trigger] all[n],
            ) by {
            if n < earlier.len() {
                assert(all[n] == earlier[n]);
                let j = choose|j: int|
                    0 <= j < rest.len() && file_name_spec((#[trigger] rest[j])@) == Some(
                        earlier[n],
                    );
                assert(paths[j] == rest[j]);
            } else {
                assert(paths[paths.len() - 1] == paths.last());
            }
        }
    }
}

/// A cleanup report names the files that the cleanup named, and carries its numbers.
pub proof fn lemma_a_cleanup_report_names_its_files(
    controller: &mut StorageFaultController,
    report: &OrphanCleanupReport,
    i: int,
)
    requires
        call_ensures(StorageFaultController::record_cleanup_report, (controller, report), ()),
    ensures
        final(controller).spec_cleanup() matches Some(recorded) && {
            &&& recorded.reclaimed_bytes == report.reclaimed_bytes
            &&& recorded.directory_synced == report.directory_synced
            &&& recorded.deleted_paths@.len() <= report.deleted_paths@.len()
            &&& 0 <= i < report.deleted_paths@.len() && file_name_spec(report.deleted_paths@[i]@)
                is Some ==> string_views(recorded.deleted_paths@).contains(
                file_name_spec(report.deleted_paths@[i]@)->0,
            )
            &&& 0 <= i < report.retained_eligible_paths@.len() && file_name_spec(
                report.retained_eligible_paths@[i]@,
            ) is Some ==> string_views(recorded.retained_eligible_paths@).contains(
                file_name_spec(report.retained_eligible_paths@[i]@)->0,
            )
        },
        final(controller).spec_receipt() == old(controller).spec_receipt(),
{
    lemma_names_are_those_of_the_paths(report.deleted_paths@, i);
    lemma_names_are_those_of_the_paths(report.retained_eligible_paths@, i);
    let recorded = final(controller).spec_cleanup()->0;
    assert(string_views(recorded.deleted_paths@).len() == recorded.deleted_paths@.len());
}

/// A listing loses at most one path to an omission, and the others stay in order.
pub proof fn lemma_an_omission_takes_one_path(
    controller: &mut StorageFaultController,
    paths: &mut Vec<String>,
    omitted: Option<usize>,
)
    requires
        call_ensures(StorageFaultController::omit_from_listing, (controller, paths), omitted),
    ensures
        omitted is None ==> final(paths)@ == old(paths)@ && *final(controller) == *old(controller),
        omitted matches Some(at) ==> {
            &&& at < old(paths)@.len()
            &&& final(paths)@.len() == old(paths)@.len() - 1
            &&& forall|i: int| 0 <= i < at ==> #[trigger] final(paths)@[i] == old(paths)@[i]
            &&& forall|i: int|
                at <= i < final(paths)@.len() ==> #[trigger] final(paths)@[i] == old(paths)@[i + 1]
            &&& !old(controller).spec_consumed() && final(controller).spec_consumed()
        },
{
}

/// A planned segment is final exactly where the listing names its file.
pub proof fn lemma_a_final_segment_is_listed(
    listing: Option<&Vec<String>>,
    planned: Option<&str>,
    result: bool,
)
    requires
        call_ensures(storage_planned_segment_is_final, (listing, planned), result),
    ensures
        result <==> planned is Some && listing is Some && exists|i: int|
            0 <= i < listing->0@.len() && file_name_spec((#[trigger] listing->0@[i])@) == Some(
                planned->0@,
            ),
{
    if planned is Some && listing is Some {
        let paths = listing->0@;
        if result {
            let i = choose|i: int|
                0 <= i < paths.len() && crate::fault::names_file(
                    #[trigger] paths[i]@,
                    planned->0@,
                );
            assert(file_name_spec(paths[i]@) == Some(planned->0@));
        }
        if exists|i: int|
            0 <= i < paths.len() && file_name_spec((#[trigger] paths[i])@) == Some(planned->0@) {
            let i = choose|i: int|
                0 <= i < paths.len() && file_name_spec((#[trigger] paths[i])@) == Some(
                    planned->0@,
                );
            assert(crate::fault::names_file(paths[i]@, planned->0@));
        }
    }
}

/// Active rows come before sealed ones, and sealed ones by their segment.
pub proof fn lemma_active_rows_come_first(left: RowSource, right: RowSource, result: bool)
    requires
        call_ensures(RowSource::precedes, (left, right), result),
    ensures
        right is Active ==> !result,
        left is Active && right is Sealed ==> result,
        left matches RowSource::Sealed(a) ==> (right matches RowSource::Sealed(b) ==> (result
            <==> a.value < b.value)),
{
}

/// Rows of one source come by their place in it, and rows of two by the source.
pub proof fn lemma_rows_come_by_source_and_place(
    left: GlobalRowId,
    right: GlobalRowId,
    result: bool,
    source: bool,
)
    requires
        call_ensures(GlobalRowId::precedes, (left, right), result),
        call_ensures(RowSource::precedes, (left.source, right.source), source),
    ensures
        left.source == right.source ==> (result <==> left.local_row < right.local_row),
        left.source != right.source ==> (result <==> source),
{
}

/// Documents of one segment come by their row, and documents of two by the segment.
pub proof fn lemma_documents_come_by_segment_and_row(
    left: GlobalDocId,
    right: GlobalDocId,
    result: bool,
)
    requires
        call_ensures(GlobalDocId::precedes, (left, right), result),
    ensures
        left.segment == right.segment ==> (result <==> left.row < right.row),
        left.segment != right.segment ==> (result <==> left.segment < right.segment),
{
}

/// An open window of observations sees each row that is scored, in order; a closed one
/// sees none.
pub proof fn lemma_an_open_window_sees_each_row(
    observer: &mut HybridScoreObserver,
    row: PhysicalIdentity,
)
    requires
        call_ensures(HybridScoreObserver::vector_row, (observer, row), ()),
    ensures
        old(observer)@ is None ==> final(observer)@ is None,
        old(observer)@ matches Some(before) ==> (final(observer)@ matches Some(after) && {
            &&& after.vector_rows.len() == before.vector_rows.len() + 1
            &&& after.vector_rows.last() == row
            &&& forall|i: int|
                0 <= i < before.vector_rows.len() ==> #[trigger] after.vector_rows[i]
                    == before.vector_rows[i]
            &&& after.lexical_rows == before.lexical_rows
        }),
{
}

} // verus!
