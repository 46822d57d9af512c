//! The line by which an aborting publisher acknowledges its receipt.

use crate::fault::MANIFEST_FILE;
use crate::fault::MANIFEST_TEMP_FILE;
use crate::fault::StorageFaultController;
use crate::fault::StorageFaultPlan;
use crate::fault::StorageFaultReceipt;
use crate::fault::StorageReceiptObserved;
use crate::fault::StorageReceiptSite;
use crate::text::bool_word;
use crate::text::chars_of;
use crate::text::decimal;
use crate::text::is_digit;
use crate::text::lemma_decimal_is_digits;
use crate::text::lemma_parse_of_decimal;
use crate::text::lemma_split_appends;
use crate::text::lemma_split_once_of_pair;
use crate::text::lemma_split_single;
use crate::text::parse_u32;
use crate::text::parse_u32_spec;
use crate::text::push_chars;
use crate::text::push_decimal;
use crate::text::same_text;
use crate::text::split;
use crate::text::split_chars;
use crate::text::split_once;
use crate::text::split_once_chars;
use crate::text::texts;
use crate::text::NumberFault;
use vstd::prelude::*;

verus! {

/// The keys of an acknowledgment, in order.
pub open spec fn keys() -> Seq<Seq<char>> {
    seq![
        "campaign"@,
        "operation"@,
        "fault"@,
        "site"@,
        "op_index"@,
        "cardinality"@,
        "artifact"@,
        "temporary"@,
        "committed"@,
        "rename_performed"@,
        "new_segment_final"@,
        "directory_sync_returned"@,
    ]
}

/// The key and value of each field, or the complaint about the first field
/// without an equals sign.
pub open spec fn keyed(fields: Seq<Seq<char>>) -> Result<Seq<(Seq<char>, Seq<char>)>, Seq<char>>
    decreases fields.len(),
{
    if fields.len() == 0 {
        Ok(Seq::empty())
    } else {
        match keyed(fields.drop_last()) {
            Err(complaint) => Err(complaint),
            Ok(pairs) => match split_once(fields.last(), '=') {
                None => Err(
                    "manifest abort acknowledgment field lacks '=': "@ + fields.last(),
                ),
                Some(pair) => Ok(pairs.push(pair)),
            },
        }
    }
}

/// Whether the pairs have exactly the expected keys.
pub open spec fn has_inventory(pairs: Seq<(Seq<char>, Seq<char>)>) -> bool {
    pairs.len() == keys().len() && forall|i: int|
        0 <= i < keys().len() ==> (#[trigger] pairs[i]).0 == keys()[i]
}

/// The boolean that a word stands for.
pub open spec fn word_bool(word: Seq<char>) -> Option<bool> {
    if word == "true"@ {
        Some(true)
    } else if word == "false"@ {
        Some(false)
    } else {
        None
    }
}

pub open spec fn bool_complaint(field: Seq<char>, word: Seq<char>) -> Seq<char> {
    "manifest abort "@ + field + " is not a bool: "@ + word
}

/// Whether the facts that every acknowledgment repeats are right.
pub open spec fn fixed_facts(
    values: Seq<Seq<char>>,
    cardinality: u32,
    new_segment_final: bool,
    directory_sync_returned: bool,
) -> bool {
    &&& values[0] == "storage-durability"@
    &&& values[1] == "publication"@
    &&& cardinality == 1
    &&& values[6] == MANIFEST_FILE@
    &&& values[7] == MANIFEST_TEMP_FILE@
    &&& values[8] == MANIFEST_FILE@
    &&& new_segment_final
    &&& !directory_sync_returned
}

/// Whether the rename was performed, by the fault and the checkpoint named.
pub open spec fn side_of_rename(fault: Seq<char>, site: Seq<char>) -> Option<bool> {
    if fault == "manifest-pre-rename-crash"@ && site == "ManifestCommit.BeforeRename"@ {
        Some(false)
    } else if fault == "manifest-post-rename-crash"@ && site == "ManifestCommit.AfterRename"@ {
        Some(true)
    } else {
        None
    }
}

/// Operation index and side of the rename that twelve values stand for, or the
/// first complaint about them.
pub open spec fn values_outcome(values: Seq<Seq<char>>) -> Result<(u32, bool), Seq<char>> {
    match parse_u32_spec(values[4]) {
        Err(fault) => Err("manifest abort op index is invalid: "@ + fault.spec_message()),
        Ok(op_index) => match parse_u32_spec(values[5]) {
            Err(fault) => Err("manifest abort cardinality is invalid: "@ + fault.spec_message()),
            Ok(cardinality) => match word_bool(values[9]) {
                None => Err(bool_complaint("rename_performed"@, values[9])),
                Some(performed) => match word_bool(values[10]) {
                    None => Err(bool_complaint("new_segment_final"@, values[10])),
                    Some(final_segment) => match word_bool(values[11]) {
                        None => Err(bool_complaint("directory_sync_returned"@, values[11])),
                        Some(synced) => if !fixed_facts(
                            values,
                            cardinality,
                            final_segment,
                            synced,
                        ) {
                            Err("manifest abort acknowledgment fixed facts differ"@)
                        } else {
                            match side_of_rename(values[2], values[3]) {
                                None => Err("manifest abort fault and production site differ"@),
                                Some(side) => if performed != side {
                                    Err(
                                        "manifest abort rename result differs from production site"@,
                                    )
                                } else {
                                    Ok((op_index, side))
                                },
                            }
                        },
                    },
                },
            },
        },
    }
}

/// Whether a line ends in its only newline.
pub open spec fn one_newline(line: Seq<char>) -> bool {
    line.len() > 0 && line.last() == '\n' && !line.drop_last().contains('\n')
}

/// Operation index and side of the rename that a line acknowledges, or the
/// complaint about it.
pub open spec fn acknowledged(line: Seq<char>) -> Result<(u32, bool), Seq<char>> {
    if !one_newline(line) {
        Err("manifest abort acknowledgment must end in exactly one newline"@)
    } else {
        match keyed(split(line.drop_last(), '|')) {
            Err(complaint) => Err(complaint),
            Ok(pairs) => if !has_inventory(pairs) {
                Err("manifest abort acknowledgment field inventory differs"@)
            } else {
                values_outcome(pairs.map_values(|pair: (Seq<char>, Seq<char>)| pair.1))
            },
        }
    }
}

/// The receipt that an acknowledgment of this index and side stands for.
pub open spec fn stands_for(receipt: StorageFaultReceipt, op_index: u32, renamed: bool) -> bool {
    &&& receipt.operation@ == "publication"@
    &&& receipt.fault@ == if renamed {
        "manifest-post-rename-crash"@
    } else {
        "manifest-pre-rename-crash"@
    }
    &&& receipt.site == StorageFaultController::rename_site(renamed)
    &&& receipt.plan.op_index == op_index
    &&& receipt.plan.artifact@ == MANIFEST_FILE@
    &&& receipt.plan.offset is None
    &&& receipt.plan.segment is None
    &&& receipt.plan.region_kind is None
    &&& receipt.plan.chunk is None
    &&& StorageFaultController::rename_observed(receipt.observed, renamed, true)
    &&& receipt.cardinality == 1
}

pub open spec fn pair_views(pairs: Seq<(Vec<char>, Vec<char>)>) -> Seq<(Seq<char>, Seq<char>)> {
    pairs.map_values(|pair: (Vec<char>, Vec<char>)| (pair.0@, pair.1@))
}

proof fn lemma_keyed_complaint_sticks(fields: Seq<Seq<char>>, n: int)
    requires
        0 <= n <= fields.len(),
        keyed(fields.take(n)) is Err,
    ensures
        keyed(fields) == keyed(fields.take(n)),
    decreases fields.len() - n,
{
    if n < fields.len() {
        assert(fields.take(n + 1).drop_last() == fields.take(n));
        lemma_keyed_complaint_sticks(fields, n + 1);
    } else {
        assert(fields.take(n) == fields);
    }
}

fn key_fields(fields: &Vec<Vec<char>>) -> (result: Result<Vec<(Vec<char>, Vec<char>)>, String>)
    ensures
        match result {
            Ok(pairs) => keyed(texts(fields@)) == Ok::<
                Seq<(Seq<char>, Seq<char>)>,
                Seq<char>,
            >(pair_views(pairs@)),
            Err(complaint) => keyed(texts(fields@)) == Err::<
                Seq<(Seq<char>, Seq<char>)>,
                Seq<char>,
            >(complaint@),
        },
{
    let ghost all = texts(fields@);
    let mut pairs: Vec<(Vec<char>, Vec<char>)> = Vec::new();
    let mut at: usize = 0;
    assert(pair_views(pairs@) == Seq::<(Seq<char>, Seq<char>)>::empty());
    while at < fields.len()
        invariant
            at <= fields.len(),
            all == texts(fields@),
            keyed(all.take(at as int)) == Ok::<Seq<(Seq<char>, Seq<char>)>, Seq<char>>(
                pair_views(pairs@),
            ),
        decreases fields.len() - at,
    {
        let ghost prefix = all.take(at + 1);
        assert(prefix.drop_last() == all.take(at as int));
        assert(prefix.last() == fields@[at as int]@);
        let ghost before = pair_views(pairs@);
        match split_once_chars(&fields[at], '=') {
            Some(pair) => {
                let ghost view = (pair.0@, pair.1@);
                pairs.push(pair);
                assert(pair_views(pairs@) == before.push(view));
            },
            None => {
                let mut complaint = "manifest abort acknowledgment field lacks '=': ".to_owned();
                push_chars(&mut complaint, &fields[at]);
                proof {
                    lemma_keyed_complaint_sticks(all, at + 1);
                }
                return Err(complaint);
            },
        }
        at = at + 1;
    }
    assert(all.take(at as int) == all);
    Ok(pairs)
}

fn inventory_holds(pairs: &Vec<(Vec<char>, Vec<char>)>) -> (result: bool)
    ensures
        result == has_inventory(pair_views(pairs@)),
{
    if pairs.len() != 12 {
        return false;
    }
    let ghost views = pair_views(pairs@);
    assert(forall|i: int| 0 <= i < 12 ==> (#[trigger] views[i]).0 == pairs@[i].0@);
    let result = same_text(&pairs[0].0, "campaign") && same_text(&pairs[1].0, "operation")
        && same_text(&pairs[2].0, "fault") && same_text(&pairs[3].0, "site") && same_text(
        &pairs[4].0,
        "op_index",
    ) && same_text(&pairs[5].0, "cardinality") && same_text(&pairs[6].0, "artifact") && same_text(
        &pairs[7].0,
        "temporary",
    ) && same_text(&pairs[8].0, "committed") && same_text(&pairs[9].0, "rename_performed")
        && same_text(&pairs[10].0, "new_segment_final") && same_text(
        &pairs[11].0,
        "directory_sync_returned",
    );
    proof {
        if result {
            assert forall|i: int| 0 <= i < keys().len() implies (#[trigger] views[i]).0
                == keys()[i] by {}
        } else {
            assert(!(forall|i: int|
                0 <= i < keys().len() ==> (#[trigger] views[i]).0 == keys()[i])) by {
                assert(views[0].0 == pairs@[0].0@);
                assert(views[1].0 == pairs@[1].0@);
                assert(views[2].0 == pairs@[2].0@);
                assert(views[3].0 == pairs@[3].0@);
                assert(views[4].0 == pairs@[4].0@);
                assert(views[5].0 == pairs@[5].0@);
                assert(views[6].0 == pairs@[6].0@);
                assert(views[7].0 == pairs@[7].0@);
                assert(views[8].0 == pairs@[8].0@);
                assert(views[9].0 == pairs@[9].0@);
                assert(views[10].0 == pairs@[10].0@);
                assert(views[11].0 == pairs@[11].0@);
            }
        }
    }
    result
}

fn parse_bool(field: &str, word: &Vec<char>) -> (result: Result<bool, String>)
    ensures
        match result {
            Ok(value) => word_bool(word@) == Some(value),
            Err(complaint) => word_bool(word@) is None && complaint@ == bool_complaint(
                field@,
                word@,
            ),
        },
{
    proof {
        reveal_strlit("true");
        reveal_strlit("false");
    }
    if same_text(word, "true") {
        Ok(true)
    } else if same_text(word, "false") {
        Ok(false)
    } else {
        let mut complaint = "manifest abort ".to_owned();
        complaint.append(field);
        complaint.append(" is not a bool: ");
        push_chars(&mut complaint, word);
        Err(complaint)
    }
}

fn number_complaint(prefix: &str, fault: NumberFault) -> (complaint: String)
    ensures
        complaint@ == prefix@ + fault.spec_message(),
{
    let mut complaint = prefix.to_owned();
    complaint.append(fault.message());
    complaint
}

fn holds_newline(chars: &Vec<char>, end: usize) -> (result: bool)
    requires
        end <= chars.len(),
    ensures
        result == chars@.take(end as int).contains('\n'),
{
    let mut at: usize = 0;
    while at < end
        invariant
            at <= end <= chars.len(),
            forall|i: int| 0 <= i < at ==> chars@[i] != '\n',
        decreases end - at,
    {
        if chars[at] == '\n' {
            assert(chars@.take(end as int)[at as int] == '\n');
            return true;
        }
        at = at + 1;
    }
    false
}

fn decode_values(pairs: &Vec<(Vec<char>, Vec<char>)>) -> (result: Result<(u32, bool), String>)
    requires
        pairs@.len() == 12,
    ensures
        match result {
            Ok(pair) => values_outcome(
                pair_views(pairs@).map_values(|pair: (Seq<char>, Seq<char>)| pair.1),
            ) == Ok::<(u32, bool), Seq<char>>(pair),
            Err(complaint) => values_outcome(
                pair_views(pairs@).map_values(|pair: (Seq<char>, Seq<char>)| pair.1),
            ) == Err::<(u32, bool), Seq<char>>(complaint@),
        },
{
    let ghost values = pair_views(pairs@).map_values(|pair: (Seq<char>, Seq<char>)| pair.1);
    assert(forall|i: int| 0 <= i < 12 ==> #[trigger] values[i] == pairs@[i].1@);
    let op_index: u32 = match parse_u32(&pairs[4].1) {
        Ok(value) => value,
        Err(fault) => {
            return Err(number_complaint("manifest abort op index is invalid: ", fault));
        },
    };
    let cardinality: u32 = match parse_u32(&pairs[5].1) {
        Ok(value) => value,
        Err(fault) => {
            return Err(number_complaint("manifest abort cardinality is invalid: ", fault));
        },
    };
    let performed = match parse_bool("rename_performed", &pairs[9].1) {
        Ok(value) => value,
        Err(complaint) => {
            return Err(complaint);
        },
    };
    let final_segment = match parse_bool("new_segment_final", &pairs[10].1) {
        Ok(value) => value,
        Err(complaint) => {
            return Err(complaint);
        },
    };
    let synced = match parse_bool("directory_sync_returned", &pairs[11].1) {
        Ok(value) => value,
        Err(complaint) => {
            return Err(complaint);
        },
    };
    if !same_text(&pairs[0].1, "storage-durability") || !same_text(&pairs[1].1, "publication")
        || cardinality != 1 || !same_text(&pairs[6].1, MANIFEST_FILE) || !same_text(
        &pairs[7].1,
        MANIFEST_TEMP_FILE,
    ) || !same_text(&pairs[8].1, MANIFEST_FILE) || !final_segment || synced {
        return Err("manifest abort acknowledgment fixed facts differ".to_owned());
    }
    let side = if same_text(&pairs[2].1, "manifest-pre-rename-crash") && same_text(
        &pairs[3].1,
        "ManifestCommit.BeforeRename",
    ) {
        false
    } else if same_text(&pairs[2].1, "manifest-post-rename-crash") && same_text(
        &pairs[3].1,
        "ManifestCommit.AfterRename",
    ) {
        true
    } else {
        return Err("manifest abort fault and production site differ".to_owned());
    };
    if performed != side {
        return Err("manifest abort rename result differs from production site".to_owned());
    }
    Ok((op_index, side))
}

impl StorageFaultReceipt {
    /// Decodes the receipt that an aborting publisher acknowledged.
    pub fn from_manifest_abort_acknowledgment(acknowledgment: &str) -> (result: Result<
        StorageFaultReceipt,
        String,
    >)
        ensures
            match result {
                Ok(receipt) => receipt.cardinality == 1 && (acknowledged(
                    acknowledgment@,
                ) matches Ok(facts) && stands_for(receipt, facts.0, facts.1)),
                Err(complaint) => acknowledged(acknowledgment@) == Err::<(u32, bool), Seq<char>>(
                    complaint@,
                ),
            },
    {
        let chars = chars_of(acknowledgment);
        if chars.len() == 0 || chars[chars.len() - 1] != '\n' || holds_newline(
            &chars,
            chars.len() - 1,
        ) {
            return Err("manifest abort acknowledgment must end in exactly one newline".to_owned());
        }
        assert(chars@.drop_last() == chars@.take(chars@.len() - 1));
        let fields = split_chars(&chars, chars.len() - 1, '|');
        let pairs = match key_fields(&fields) {
            Ok(pairs) => pairs,
            Err(complaint) => {
                return Err(complaint);
            },
        };
        if !inventory_holds(&pairs) {
            return Err("manifest abort acknowledgment field inventory differs".to_owned());
        }
        let (op_index, renamed): (u32, bool) = match decode_values(&pairs) {
            Ok(facts) => facts,
            Err(complaint) => {
                return Err(complaint);
            },
        };
        let observed = StorageReceiptObserved::ManifestRename {
            temporary: MANIFEST_TEMP_FILE.to_owned(),
            committed: MANIFEST_FILE.to_owned(),
            rename_performed: renamed,
            new_segment_final: true,
            directory_sync_returned: false,
        };
        let receipt = StorageFaultReceipt {
            operation: "publication",
            fault: if renamed {
                "manifest-post-rename-crash"
            } else {
                "manifest-pre-rename-crash"
            },
            site: if renamed {
                StorageReceiptSite::ManifestCommitAfterRename
            } else {
                StorageReceiptSite::ManifestCommitBeforeRename
            },
            plan: StorageFaultPlan::new(op_index, MANIFEST_FILE),
            observed,
            cardinality: 1,
        };
        Ok(receipt)
    }
}

/// One field of an acknowledgment.
pub open spec fn field_text(pair: (Seq<char>, Seq<char>)) -> Seq<char> {
    pair.0.push('=') + pair.1
}

/// Fields joined by bars.
pub open spec fn joined(pairs: Seq<(Seq<char>, Seq<char>)>) -> Seq<char>
    decreases pairs.len(),
{
    if pairs.len() == 0 {
        Seq::empty()
    } else if pairs.len() == 1 {
        field_text(pairs[0])
    } else {
        joined(pairs.drop_last()).push('|') + field_text(pairs.last())
    }
}

/// The fields by which a rename receipt is acknowledged.
pub open spec fn wire_fields(receipt: StorageFaultReceipt) -> Option<
    Seq<(Seq<char>, Seq<char>)>,
> {
    match receipt.observed {
        StorageReceiptObserved::ManifestRename {
            temporary,
            committed,
            rename_performed,
            new_segment_final,
            directory_sync_returned,
        } => Some(
            seq![
                (keys()[0], "storage-durability"@),
                (keys()[1], receipt.operation@),
                (keys()[2], receipt.fault@),
                (keys()[3], receipt.site.spec_key()),
                (keys()[4], decimal(receipt.plan.op_index as nat)),
                (keys()[5], decimal(receipt.cardinality as nat)),
                (keys()[6], receipt.plan.artifact@),
                (keys()[7], temporary@),
                (keys()[8], committed@),
                (keys()[9], bool_word(rename_performed)),
                (keys()[10], bool_word(new_segment_final)),
                (keys()[11], bool_word(directory_sync_returned)),
            ],
        ),
        _ => None,
    }
}

/// Fields joined one after the other, each behind a bar but the first.
fn push_field(out: &mut String, first: bool, key: &str, value: &str)
    ensures
        final(out)@ == old(out)@ + if first {
            field_text((key@, value@))
        } else {
            seq!['|'] + field_text((key@, value@))
        },
{
    proof {
        reveal_strlit("|");
        reveal_strlit("=");
    }
    if !first {
        out.append("|");
    }
    out.append(key);
    out.append("=");
    out.append(value);
    assert("|"@ == seq!['|']);
    assert("="@ == seq!['=']);
}

fn decimal_text(n: u128) -> (text: String)
    ensures
        text@ == decimal(n as nat),
{
    let mut text = String::new();
    push_decimal(&mut text, n);
    assert(text@ == decimal(n as nat));
    text
}

fn bool_text(b: bool) -> (text: &'static str)
    ensures
        text@ == bool_word(b),
{
    if b {
        "true"
    } else {
        "false"
    }
}

proof fn lemma_joined_grows(
    done: Seq<(Seq<char>, Seq<char>)>,
    pair: (Seq<char>, Seq<char>),
    out: Seq<char>,
)
    requires
        done.len() > 0,
        out == joined(done) + (seq!['|'] + field_text(pair)),
    ensures
        out == joined(done.push(pair)),
{
    assert(done.push(pair).drop_last() == done);
    assert(joined(done) + (seq!['|'] + field_text(pair)) == joined(done).push('|') + field_text(
        pair,
    ));
}

/// The line that acknowledges a rename receipt; other receipts have none.
pub fn storage_manifest_abort_wire_receipt(receipt: &StorageFaultReceipt) -> (line: Option<String>)
    ensures
        match line {
            Some(text) => wire_fields(*receipt) matches Some(pairs) && text@ == joined(pairs).push(
                '\n',
            ),
            None => wire_fields(*receipt) is None,
        },
{
    match &receipt.observed {
        StorageReceiptObserved::ManifestRename {
            temporary,
            committed,
            rename_performed,
            new_segment_final,
            directory_sync_returned,
        } => {
            let op_index = decimal_text(receipt.plan.op_index as u128);
            let cardinality = decimal_text(receipt.cardinality as u128);
            let ghost pairs = wire_fields(*receipt)->0;
            let mut out = String::new();
            push_field(&mut out, true, "campaign", receipt.campaign());
            assert(pairs.take(1)[0] == pairs[0]);
            assert(out@ == joined(pairs.take(1)));
            push_field(&mut out, false, "operation", receipt.operation);
            proof {
                lemma_joined_grows(pairs.take(1), pairs[1], out@);
                assert(pairs.take(1).push(pairs[1]) == pairs.take(2));
            }
            push_field(&mut out, false, "fault", receipt.fault);
            proof {
                lemma_joined_grows(pairs.take(2), pairs[2], out@);
                assert(pairs.take(2).push(pairs[2]) == pairs.take(3));
            }
            push_field(&mut out, false, "site", receipt.site.key());
            proof {
                lemma_joined_grows(pairs.take(3), pairs[3], out@);
                assert(pairs.take(3).push(pairs[3]) == pairs.take(4));
            }
            push_field(&mut out, false, "op_index", op_index.as_str());
            proof {
                lemma_joined_grows(pairs.take(4), pairs[4], out@);
                assert(pairs.take(4).push(pairs[4]) == pairs.take(5));
            }
            push_field(&mut out, false, "cardinality", cardinality.as_str());
            proof {
                lemma_joined_grows(pairs.take(5), pairs[5], out@);
                assert(pairs.take(5).push(pairs[5]) == pairs.take(6));
            }
            push_field(&mut out, false, "artifact", receipt.plan.artifact.as_str());
            proof {
                lemma_joined_grows(pairs.take(6), pairs[6], out@);
                assert(pairs.take(6).push(pairs[6]) == pairs.take(7));
            }
            push_field(&mut out, false, "temporary", temporary.as_str());
            proof {
                lemma_joined_grows(pairs.take(7), pairs[7], out@);
                assert(pairs.take(7).push(pairs[7]) == pairs.take(8));
            }
            push_field(&mut out, false, "committed", committed.as_str());
            proof {
                lemma_joined_grows(pairs.take(8), pairs[8], out@);
                assert(pairs.take(8).push(pairs[8]) == pairs.take(9));
            }
            push_field(&mut out, false, "rename_performed", bool_text(*rename_performed));
            proof {
                lemma_joined_grows(pairs.take(9), pairs[9], out@);
                assert(pairs.take(9).push(pairs[9]) == pairs.take(10));
            }
            push_field(&mut out, false, "new_segment_final", bool_text(*new_segment_final));
            proof {
                lemma_joined_grows(pairs.take(10), pairs[10], out@);
                assert(pairs.take(10).push(pairs[10]) == pairs.take(11));
            }
            push_field(
                &mut out,
                false,
                "directory_sync_returned",
                bool_text(*directory_sync_returned),
            );
            proof {
                lemma_joined_grows(pairs.take(11), pairs[11], out@);
                assert(pairs.take(11).push(pairs[11]) == pairs);
                reveal_strlit("\n");
            }
            out.append("\n");
            assert("\n"@ == seq!['\n']);
            assert(out@ == joined(pairs).push('\n'));
            Some(out)
        },
        _ => None,
    }
}

proof fn lemma_joined_splits(pairs: Seq<(Seq<char>, Seq<char>)>)
    requires
        pairs.len() > 0,
        forall|i: int| 0 <= i < pairs.len() ==> !field_text(#[trigger] pairs[i]).contains('|'),
    ensures
        split(joined(pairs), '|') == pairs.map_values(
            |pair: (Seq<char>, Seq<char>)| field_text(pair),
        ),
    decreases pairs.len(),
{
    let all = pairs.map_values(|pair: (Seq<char>, Seq<char>)| field_text(pair));
    if pairs.len() == 1 {
        lemma_split_single(field_text(pairs[0]), '|');
        assert(all == seq![field_text(pairs[0])]);
    } else {
        let shorter = pairs.drop_last();
        assert(forall|i: int| 0 <= i < shorter.len() ==> #[trigger] shorter[i] == pairs[i]);
        lemma_joined_splits(shorter);
        assert(!field_text(pairs[pairs.len() - 1]).contains('|'));
        lemma_split_appends(joined(shorter), field_text(pairs.last()), '|');
        assert(all == shorter.map_values(
            |pair: (Seq<char>, Seq<char>)| field_text(pair),
        ).push(field_text(pairs.last())));
    }
}

proof fn lemma_fields_are_keyed(pairs: Seq<(Seq<char>, Seq<char>)>)
    requires
        forall|i: int| 0 <= i < pairs.len() ==> !(#[trigger] pairs[i]).0.contains('='),
    ensures
        keyed(pairs.map_values(|pair: (Seq<char>, Seq<char>)| field_text(pair))) == Ok::<
            Seq<(Seq<char>, Seq<char>)>,
            Seq<char>,
        >(pairs),
    decreases pairs.len(),
{
    let all = pairs.map_values(|pair: (Seq<char>, Seq<char>)| field_text(pair));
    if pairs.len() > 0 {
        let shorter = pairs.drop_last();
        assert(forall|i: int| 0 <= i < shorter.len() ==> #[trigger] shorter[i] == pairs[i]);
        lemma_fields_are_keyed(shorter);
        assert(all.drop_last() == shorter.map_values(
            |pair: (Seq<char>, Seq<char>)| field_text(pair),
        ));
        assert(!pairs[pairs.len() - 1].0.contains('='));
        lemma_split_once_of_pair(pairs.last().0, pairs.last().1, '=');
        assert(shorter.push(pairs.last()) == pairs);
    } else {
        assert(pairs == Seq::<(Seq<char>, Seq<char>)>::empty());
    }
}

/// No character of `s` has a meaning in an acknowledgment.
pub open spec fn is_plain(s: Seq<char>) -> bool {
    forall|i: int| 0 <= i < s.len() ==> s[i] != '|' && s[i] != '=' && s[i] != '\n'
}

proof fn lemma_plain_fields_have_no_bar(pair: (Seq<char>, Seq<char>))
    requires
        is_plain(pair.0),
        is_plain(pair.1),
    ensures
        !field_text(pair).contains('|'),
        !field_text(pair).contains('\n'),
        !pair.0.contains('='),
{
    let text = field_text(pair);
    assert forall|i: int| 0 <= i < text.len() implies text[i] != '|' && text[i] != '\n' by {
        if i < pair.0.len() {
            assert(text[i] == pair.0[i]);
        } else if i > pair.0.len() {
            assert(text[i] == pair.1[i - pair.0.len() - 1]);
        }
    }
}

proof fn lemma_joined_has_no_newline(pairs: Seq<(Seq<char>, Seq<char>)>)
    requires
        forall|i: int| 0 <= i < pairs.len() ==> !field_text(#[trigger] pairs[i]).contains('\n'),
    ensures
        !joined(pairs).contains('\n'),
    decreases pairs.len(),
{
    if pairs.len() > 1 {
        let shorter = pairs.drop_last();
        assert(forall|i: int| 0 <= i < shorter.len() ==> #[trigger] shorter[i] == pairs[i]);
        lemma_joined_has_no_newline(shorter);
        assert(!field_text(pairs[pairs.len() - 1]).contains('\n'));
        let text = joined(pairs);
        let head = joined(shorter);
        assert forall|i: int| 0 <= i < text.len() implies text[i] != '\n' by {
            if i < head.len() {
                assert(text[i] == head[i]);
                assert(!head.contains('\n'));
            } else if i > head.len() {
                assert(text[i] == field_text(pairs.last())[i - head.len() - 1]);
            }
        }
    } else if pairs.len() == 1 {
        assert(!field_text(pairs[0]).contains('\n'));
    }
}

/// Decoding an acknowledgment line gives back the operation index and the side
/// of the rename, for every receipt that a publisher acknowledges once its new
/// segment is final.
#[verifier::rlimit(60)]
pub proof fn lemma_acknowledgment_round_trip(
    receipt: StorageFaultReceipt,
    op_index: u32,
    renamed: bool,
)
    requires
        stands_for(receipt, op_index, renamed),
    ensures
        wire_fields(receipt) is Some,
        acknowledged(joined(wire_fields(receipt)->0).push('\n')) == Ok::<(u32, bool), Seq<char>>(
            (op_index, renamed),
        ),
{
    let pairs = wire_fields(receipt)->0;
    lemma_decimal_is_digits(op_index as nat);
    lemma_decimal_is_digits(1);
    lemma_parse_of_decimal(op_index);
    lemma_parse_of_decimal(1);
    reveal_strlit("true");
    reveal_strlit("false");
    lemma_wire_pairs_are_plain(receipt, op_index, renamed);
    assert forall|i: int| 0 <= i < pairs.len() implies !field_text(#[trigger] pairs[i]).contains(
        '|',
    ) && !field_text(pairs[i]).contains('\n') && !pairs[i].0.contains('=') by {
        lemma_plain_fields_have_no_bar(pairs[i]);
    }
    lemma_joined_splits(pairs);
    lemma_fields_are_keyed(pairs);
    lemma_joined_has_no_newline(pairs);
    let line = joined(pairs).push('\n');
    assert(line.drop_last() == joined(pairs));
    assert(has_inventory(pairs));
    let values = pairs.map_values(|pair: (Seq<char>, Seq<char>)| pair.1);
    assert(values[9] == bool_word(renamed));
    assert(values[10] == "true"@);
    assert(values[11] == "false"@);
    assert("true"@.len() != "false"@.len());
    assert(word_bool(values[9]) == Some(renamed));
    assert(word_bool(values[10]) == Some(true));
    assert(word_bool(values[11]) == Some(false));
    assert(fixed_facts(values, 1, true, false));
    if renamed {
        reveal_strlit("manifest-pre-rename-crash");
        reveal_strlit("manifest-post-rename-crash");
        assert("manifest-pre-rename-crash"@.len() != "manifest-post-rename-crash"@.len());
    }
    assert(side_of_rename(values[2], values[3]) == Some(renamed));
}

proof fn lemma_wire_pairs_are_plain(receipt: StorageFaultReceipt, op_index: u32, renamed: bool)
    requires
        stands_for(receipt, op_index, renamed),
    ensures
        forall|i: int|
            0 <= i < 12 ==> is_plain((#[trigger] (wire_fields(receipt)->0)[i]).0) && is_plain(
                (wire_fields(receipt)->0)[i].1,
            ),
{
    reveal_strlit("campaign");
    reveal_strlit("operation");
    reveal_strlit("fault");
    reveal_strlit("site");
    reveal_strlit("op_index");
    reveal_strlit("cardinality");
    reveal_strlit("artifact");
    reveal_strlit("temporary");
    reveal_strlit("committed");
    reveal_strlit("rename_performed");
    reveal_strlit("new_segment_final");
    reveal_strlit("directory_sync_returned");
    reveal_strlit("storage-durability");
    reveal_strlit("publication");
    reveal_strlit("manifest-pre-rename-crash");
    reveal_strlit("manifest-post-rename-crash");
    reveal_strlit("ManifestCommit.BeforeRename");
    reveal_strlit("ManifestCommit.AfterRename");
    reveal_strlit("manifest.ze");
    reveal_strlit("manifest.ze.tmp");
    reveal_strlit("true");
    reveal_strlit("false");
    lemma_decimal_is_plain(op_index as nat);
    lemma_decimal_is_plain(1);
}

proof fn lemma_decimal_is_plain(n: nat)
    ensures
        is_plain(decimal(n)),
{
    lemma_decimal_is_digits(n);
    assert forall|i: int| 0 <= i < decimal(n).len() implies decimal(n)[i] != '|' && decimal(n)[i]
        != '=' && decimal(n)[i] != '\n' by {
        assert(is_digit(decimal(n)[i]));
    }
}

} // verus!
