use vstd::prelude::*;
use crate::blink::{BlinkModel, ErrorCode};
use crate::budget::{list_budget, record_budget};
use crate::codec::{encode_list, encode_record, list_round_trip, parse_list, parse_record, record_round_trip};
use crate::lifecycle::{
    list_after_create, list_after_delete, list_close_step, list_create_step, record_close_step, record_create_step,
};
use crate::store::{BlinkListModel, BlinkRecordModel};

verus! {

/// The list store after creates of `bs`, in order, from an absent store with
/// the right address, or `None` once one of them fails.
pub open spec fn run_creates(bs: Seq<BlinkModel>) -> Option<BlinkListModel>
    decreases bs.len(),
{
    if bs.len() == 0 {
        None
    } else {
        let before = run_creates(bs.drop_last());
        if bs.len() > 1 && before is None {
            None
        } else {
            match list_create_step(true, before, bs.last()) {
                (Ok(_), after) => after,
                (Err(_), _) => None,
            }
        }
    }
}

/// A create that succeeds on an absent list store leaves an initialized store
/// holding exactly the new record, and reading its bytes back gives that store.
pub proof fn list_create_on_absent(b: BlinkModel, padding: Seq<u8>)
    requires
        list_create_step(true, None, b).0 is Ok,
    ensures
        list_create_step(true, None, b).1 == Some(BlinkListModel { blinks: seq![b], is_initialized: true }),
        parse_list(encode_list(BlinkListModel { blinks: seq![b], is_initialized: true }) + padding) == Some(
            BlinkListModel { blinks: seq![b], is_initialized: true },
        ),
{
    let m = BlinkListModel { blinks: seq![b], is_initialized: true };
    assert(Seq::<BlinkModel>::empty().push(b) =~= seq![b]);
    stored_list_round_trip(m, padding);
}

/// A create that succeeds on an absent single-record store leaves an
/// initialized store holding exactly the new fields, and reading its bytes
/// back gives that store.
pub proof fn record_create_on_absent(b: BlinkModel, padding: Seq<u8>)
    requires
        record_create_step(None, b).0 is Ok,
    ensures
        record_create_step(None, b).1 == Some(BlinkRecordModel { blink: b, is_initialized: true }),
        parse_record(encode_record(BlinkRecordModel { blink: b, is_initialized: true }) + padding) == Some(
            BlinkRecordModel { blink: b, is_initialized: true },
        ),
{
    stored_record_round_trip(BlinkRecordModel { blink: b, is_initialized: true }, padding);
}

/// On a single-record store, a create after a successful create fails with
/// `BlinkExists` and leaves the store as it was.
pub proof fn record_second_create_fails(s: Option<BlinkRecordModel>, first: BlinkModel, second: BlinkModel)
    requires
        record_create_step(s, first).0 is Ok,
    ensures
        record_create_step(record_create_step(s, first).1, second) == (
            Err::<(), ErrorCode>(ErrorCode::BlinkExists),
            record_create_step(s, first).1,
        ),
{
}

/// Creates that all succeed from an absent list store leave the records in
/// call order, one per create, whatever their ids (repeated ids included).
pub proof fn list_creates_keep_call_order(bs: Seq<BlinkModel>)
    requires
        run_creates(bs) is Some,
    ensures
        run_creates(bs) == Some(BlinkListModel { blinks: bs, is_initialized: true }),
    decreases bs.len(),
{
    let init = bs.drop_last();
    if bs.len() > 1 {
        assert(run_creates(init) is Some);
        list_creates_keep_call_order(init);
        assert(init.push(bs.last()) =~= bs);
        assert(list_after_create(run_creates(init), bs.last()) == BlinkListModel { blinks: bs, is_initialized: true });
    } else {
        assert(Seq::<BlinkModel>::empty().push(bs.last()) =~= bs);
    }
}

/// A successful create on a list store appends one record, also where a record
/// with the same id is already there.
pub proof fn list_create_appends(s: BlinkListModel, b: BlinkModel)
    requires
        list_create_step(true, Some(s), b).0 is Ok,
    ensures
        list_create_step(true, Some(s), b).1 == Some(
            BlinkListModel { blinks: s.blinks.push(b), is_initialized: true },
        ),
{
}

/// A delete of `id` keeps no record with that id, keeps every other record,
/// and leaves a store with no such record as it was.
pub proof fn list_delete_removes_all_matches(m: BlinkListModel, id: Seq<char>)
    ensures
        list_after_delete(m, id).blinks.len() <= m.blinks.len(),
        forall|i: int|
            0 <= i < list_after_delete(m, id).blinks.len() ==> (#[trigger] list_after_delete(m, id).blinks[i]).id
                != id,
        forall|b: BlinkModel| #[trigger]
            m.blinks.contains(b) && b.id != id ==> list_after_delete(m, id).blinks.contains(b),
        (forall|i: int| 0 <= i < m.blinks.len() ==> (#[trigger] m.blinks[i]).id != id) ==> list_after_delete(
            m,
            id,
        ) == m,
        list_after_delete(m, id).is_initialized == m.is_initialized,
{
    let keep = |b: BlinkModel| b.id != id;
    m.blinks.filter_lemma(keep);
    if forall|i: int| 0 <= i < m.blinks.len() ==> (#[trigger] m.blinks[i]).id != id {
        lemma_filter_all(m.blinks, id);
        assert(list_after_delete(m, id).blinks =~= m.blinks);
    }
}

proof fn lemma_filter_all(s: Seq<BlinkModel>, id: Seq<char>)
    requires
        forall|i: int| 0 <= i < s.len() ==> (#[trigger] s[i]).id != id,
    ensures
        s.filter(|b: BlinkModel| b.id != id) == s,
    decreases s.len(),
{
    reveal(Seq::filter);
    if s.len() > 0 {
        let init = s.drop_last();
        assert forall|i: int| 0 <= i < init.len() implies (#[trigger] init[i]).id != id by {
            assert(init[i] == s[i]);
        }
        lemma_filter_all(init, id);
        assert(init.push(s.last()) =~= s);
        assert(s.last() == s[s.len() - 1]);
    }
}

/// A close of an absent list store fails with `BlinkNotExist`; a close of an
/// initialized one leaves it absent, and a create then does what it does on a
/// fresh store.
pub proof fn list_close_then_create(s: Option<BlinkListModel>, b: BlinkModel)
    ensures
        list_close_step(true, None) == (Err::<(), ErrorCode>(ErrorCode::BlinkNotExist), None::<BlinkListModel>),
        (s matches Some(m) && m.is_initialized) ==> list_close_step(true, s) == (
            Ok::<(), ErrorCode>(()),
            None::<BlinkListModel>,
        ),
        (s matches Some(m) && m.is_initialized) ==> list_create_step(true, list_close_step(true, s).1, b)
            == list_create_step(true, None, b),
{
}

/// The same for a single-record store: closed, it takes a create again.
pub proof fn record_close_then_create(s: Option<BlinkRecordModel>, b: BlinkModel)
    ensures
        record_close_step(None) == (Err::<(), ErrorCode>(ErrorCode::BlinkNotExist), None::<BlinkRecordModel>),
        (s matches Some(m) && m.is_initialized) ==> record_close_step(s) == (
            Ok::<(), ErrorCode>(()),
            None::<BlinkRecordModel>,
        ),
        (s matches Some(m) && m.is_initialized) ==> record_create_step(record_close_step(s).1, b)
            == record_create_step(None, b),
{
}

/// Every list store within its budget reads back from its bytes unchanged.
pub proof fn stored_list_round_trip(m: BlinkListModel, padding: Seq<u8>)
    requires
        encode_list(m).len() <= list_budget(),
    ensures
        parse_list(encode_list(m) + padding) == Some(m),
{
    crate::budget::lemma_list_fits(m);
    list_round_trip(m, padding);
}

/// Every single-record store within its budget reads back from its bytes unchanged.
pub proof fn stored_record_round_trip(m: BlinkRecordModel, padding: Seq<u8>)
    requires
        encode_record(m).len() <= record_budget(),
    ensures
        parse_record(encode_record(m) + padding) == Some(m),
{
    crate::budget::lemma_record_fits(m);
    record_round_trip(m, padding);
}

} // verus!
