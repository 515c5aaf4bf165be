use vstd::prelude::*;
use crate::blink::{Blink, BlinkModel, ErrorCode};
use crate::budget::{list_budget, list_fits_in, record_budget, record_fits_in, ACCOUNT_HEADER_LEN, BLINK_LIST_SPACE, BLINK_RECORD_SPACE};
use crate::codec::{encode_list, encode_record};
use crate::slot::{is_owner_slot, is_owner_slot_key};
use crate::store::{BlinkList, BlinkListModel, BlinkRecord, BlinkRecordModel};

verus! {

/// The accounts of a create: the owner's list store (`None` while absent), the
/// address it sits at, the owner, and the program that derives the address.
pub struct CreateBlink {
    pub blink_list: Option<BlinkList>,
    pub blink_list_key: [u8; 32],
    pub signer: [u8; 32],
    pub program_id: [u8; 32],
}

/// The accounts of a delete: the owner's existing list store and its address.
pub struct DeleteBlink {
    pub blink_list: BlinkList,
    pub blink_list_key: [u8; 32],
    pub signer: [u8; 32],
    pub program_id: [u8; 32],
}

/// The accounts of a close: the owner's list store (`None` while absent) and its
/// address. On success the ledger frees the account and pays its deposit to the
/// signer.
pub struct CloseBlink {
    pub blink_list: Option<BlinkList>,
    pub blink_list_key: [u8; 32],
    pub signer: [u8; 32],
    pub program_id: [u8; 32],
}

pub open spec fn list_view(s: Option<BlinkList>) -> Option<BlinkListModel> {
    match s {
        Some(l) => Some(l@),
        None => None,
    }
}

pub open spec fn record_view(s: Option<BlinkRecord>) -> Option<BlinkRecordModel> {
    match s {
        Some(r) => Some(r@),
        None => None,
    }
}

pub open spec fn new_blink(
    id: Seq<char>,
    title: Seq<char>,
    icon: Seq<char>,
    description: Seq<char>,
    label: Seq<char>,
    to_pubkey: Seq<char>,
    link: Seq<char>,
) -> BlinkModel {
    BlinkModel { id, title, icon, description, label, to_pubkey, link }
}

/// The list store after a create appends `b`: an absent store starts empty.
pub open spec fn list_after_create(s: Option<BlinkListModel>, b: BlinkModel) -> BlinkListModel {
    let base = match s {
        Some(m) => m,
        None => BlinkListModel::empty(),
    };
    BlinkListModel { blinks: base.blinks.push(b), is_initialized: true }
}

/// The list store after a delete of `id`: every record with that id is gone.
pub open spec fn list_after_delete(m: BlinkListModel, id: Seq<char>) -> BlinkListModel {
    BlinkListModel { blinks: m.blinks.filter(|b: BlinkModel| b.id != id), is_initialized: m.is_initialized }
}

/// The single-record store after a create with these fields.
pub open spec fn record_after_create(b: BlinkModel) -> BlinkRecordModel {
    BlinkRecordModel { blink: b, is_initialized: true }
}

/// What a create does to a list store: its result and the store after it.
pub open spec fn list_create_step(key_ok: bool, s: Option<BlinkListModel>, b: BlinkModel) -> (
    Result<(), ErrorCode>,
    Option<BlinkListModel>,
) {
    let next = list_after_create(s, b);
    if !key_ok {
        (Err(ErrorCode::ConstraintSeeds), s)
    } else if encode_list(next).len() > list_budget() {
        (Err(ErrorCode::BudgetExceeded), s)
    } else {
        (Ok(()), Some(next))
    }
}

/// What a delete does to a list store.
pub open spec fn list_delete_step(key_ok: bool, m: BlinkListModel, id: Seq<char>) -> (
    Result<(), ErrorCode>,
    BlinkListModel,
) {
    if !key_ok {
        (Err(ErrorCode::ConstraintSeeds), m)
    } else {
        (Ok(()), list_after_delete(m, id))
    }
}

/// What a close does to a list store.
pub open spec fn list_close_step(key_ok: bool, s: Option<BlinkListModel>) -> (
    Result<(), ErrorCode>,
    Option<BlinkListModel>,
) {
    if !key_ok {
        (Err(ErrorCode::ConstraintSeeds), s)
    } else if s matches Some(m) && m.is_initialized {
        (Ok(()), None)
    } else {
        (Err(ErrorCode::BlinkNotExist), s)
    }
}

/// What a create does to a single-record store.
pub open spec fn record_create_step(s: Option<BlinkRecordModel>, b: BlinkModel) -> (
    Result<(), ErrorCode>,
    Option<BlinkRecordModel>,
) {
    let next = record_after_create(b);
    if s matches Some(m) && m.is_initialized {
        (Err(ErrorCode::BlinkExists), s)
    } else if encode_record(next).len() > record_budget() {
        (Err(ErrorCode::BudgetExceeded), s)
    } else {
        (Ok(()), Some(next))
    }
}

/// What a close does to a single-record store.
pub open spec fn record_close_step(s: Option<BlinkRecordModel>) -> (
    Result<(), ErrorCode>,
    Option<BlinkRecordModel>,
) {
    if s matches Some(m) && m.is_initialized {
        (Ok(()), None)
    } else {
        (Err(ErrorCode::BlinkNotExist), s)
    }
}

pub open spec fn create_key_ok(ctx: CreateBlink) -> bool {
    is_owner_slot(ctx.blink_list_key@, ctx.signer@, ctx.program_id@)
}

pub open spec fn delete_key_ok(ctx: DeleteBlink) -> bool {
    is_owner_slot(ctx.blink_list_key@, ctx.signer@, ctx.program_id@)
}

pub open spec fn close_key_ok(ctx: CloseBlink) -> bool {
    is_owner_slot(ctx.blink_list_key@, ctx.signer@, ctx.program_id@)
}

/// A zero-valued list store for a budget of `budget` bytes.
pub fn initialize_list(budget: usize) -> (r: Result<BlinkList, ErrorCode>)
    ensures
        match r {
            Ok(l) => l@ == BlinkListModel::empty() && encode_list(l@).len() <= budget,
            Err(e) => e == ErrorCode::BudgetExceeded && encode_list(BlinkListModel::empty()).len() > budget,
        },
{
    let l = BlinkList::empty();
    if list_fits_in(&l, budget) {
        Ok(l)
    } else {
        Err(ErrorCode::BudgetExceeded)
    }
}

/// A zero-valued single-record store for a budget of `budget` bytes.
pub fn initialize_record(budget: usize) -> (r: Result<BlinkRecord, ErrorCode>)
    ensures
        match r {
            Ok(s) => s@ == BlinkRecordModel::empty() && encode_record(s@).len() <= budget,
            Err(e) => e == ErrorCode::BudgetExceeded && encode_record(BlinkRecordModel::empty()).len()
                > budget,
        },
{
    let s = BlinkRecord::empty();
    if record_fits_in(&s, budget) {
        Ok(s)
    } else {
        Err(ErrorCode::BudgetExceeded)
    }
}

/// Appends a record to the owner's list store, creating the store if absent.
/// Ids are not checked for uniqueness; the store's flag is set each time.
pub fn create_blink(
    ctx: &mut CreateBlink,
    id: String,
    title: String,
    icon: String,
    description: String,
    label: String,
    to_pubkey: String,
    link: String,
) -> (r: Result<(), ErrorCode>)
    ensures
        (r, list_view(final(ctx).blink_list)) == list_create_step(
            create_key_ok(*old(ctx)),
            list_view(old(ctx).blink_list),
            new_blink(id@, title@, icon@, description@, label@, to_pubkey@, link@),
        ),
        r is Err ==> final(ctx).blink_list == old(ctx).blink_list,
        final(ctx).blink_list_key == old(ctx).blink_list_key,
        final(ctx).signer == old(ctx).signer,
        final(ctx).program_id == old(ctx).program_id,
{
    if !is_owner_slot_key(&ctx.blink_list_key, &ctx.signer, &ctx.program_id) {
        return Err(ErrorCode::ConstraintSeeds);
    }
    let mut next = match &ctx.blink_list {
        Some(l) => l.duplicate(),
        None => BlinkList::empty(),
    };
    let ghost before = next@;
    next.blinks.push(Blink::new(id, title, icon, description, label, to_pubkey, link));
    next.is_initialized = true;
    assert(next@.blinks =~= before.blinks.push(
        new_blink(id@, title@, icon@, description@, label@, to_pubkey@, link@),
    ));
    if !list_fits_in(&next, BLINK_LIST_SPACE - ACCOUNT_HEADER_LEN) {
        return Err(ErrorCode::BudgetExceeded);
    }
    ctx.blink_list = Some(next);
    Ok(())
}

/// Removes every record whose id is `id` from the owner's list store, keeping
/// the order of the others; no record matching is no error.
pub fn delete_blink(ctx: &mut DeleteBlink, id: String) -> (r: Result<(), ErrorCode>)
    ensures
        (r, final(ctx).blink_list@) == list_delete_step(delete_key_ok(*old(ctx)), old(ctx).blink_list@, id@),
        r is Err ==> *final(ctx) == *old(ctx),
        final(ctx).blink_list_key == old(ctx).blink_list_key,
        final(ctx).signer == old(ctx).signer,
        final(ctx).program_id == old(ctx).program_id,
{
    if !is_owner_slot_key(&ctx.blink_list_key, &ctx.signer, &ctx.program_id) {
        return Err(ErrorCode::ConstraintSeeds);
    }
    let ghost s = ctx.blink_list@.blinks;
    let ghost keep = |b: BlinkModel| b.id != id@;
    let mut kept: Vec<Blink> = Vec::new();
    let mut i: usize = 0;
    assert(s.take(0) =~= Seq::<BlinkModel>::empty());
    assert(kept@.map_values(|b: Blink| b@) =~= Seq::<BlinkModel>::empty());
    while i < ctx.blink_list.blinks.len()
        invariant
            i <= ctx.blink_list.blinks@.len(),
            s == ctx.blink_list@.blinks,
            keep == (|b: BlinkModel| b.id != id@),
            kept@.map_values(|b: Blink| b@) == s.take(i as int).filter(keep),
        decreases ctx.blink_list.blinks@.len() - i,
    {
        assert(s.take(i as int + 1).drop_last() =~= s.take(i as int));
        let b = &ctx.blink_list.blinks[i];
        assert(s.take(i as int + 1).last() == b@);
        proof {
            reveal(Seq::filter);
        }
        assert(s.take(i as int + 1).filter(keep) == if keep(b@) {
            s.take(i as int).filter(keep).push(b@)
        } else {
            s.take(i as int).filter(keep)
        });
        let same = b.id == id;
        if !same {
            let ghost old_kept = kept@;
            kept.push(b.duplicate());
            assert(kept@.map_values(|x: Blink| x@) =~= old_kept.map_values(|x: Blink| x@).push(b@));
        }
        i = i + 1;
    }
    assert(s.take(i as int) =~= s);
    ctx.blink_list.blinks = kept;
    Ok(())
}

/// Closes the owner's list store; it must exist and be initialized.
pub fn close_blink(ctx: &mut CloseBlink) -> (r: Result<(), ErrorCode>)
    ensures
        (r, list_view(final(ctx).blink_list)) == list_close_step(
            close_key_ok(*old(ctx)),
            list_view(old(ctx).blink_list),
        ),
        r is Err ==> final(ctx).blink_list == old(ctx).blink_list,
        final(ctx).blink_list_key == old(ctx).blink_list_key,
        final(ctx).signer == old(ctx).signer,
        final(ctx).program_id == old(ctx).program_id,
{
    if !is_owner_slot_key(&ctx.blink_list_key, &ctx.signer, &ctx.program_id) {
        return Err(ErrorCode::ConstraintSeeds);
    }
    let exists = match &ctx.blink_list {
        Some(l) => l.is_initialized,
        None => false,
    };
    if !exists {
        return Err(ErrorCode::BlinkNotExist);
    }
    ctx.blink_list = None;
    Ok(())
}

/// Fills the owner's single-record store, creating it if absent; an initialized
/// store is left as it is.
pub fn create_blink_record(
    store: &mut Option<BlinkRecord>,
    title: String,
    icon: String,
    description: String,
    label: String,
    to_pubkey: String,
    link: String,
) -> (r: Result<(), ErrorCode>)
    ensures
        (r, record_view(*final(store))) == record_create_step(
            record_view(*old(store)),
            new_blink(Seq::empty(), title@, icon@, description@, label@, to_pubkey@, link@),
        ),
        r is Err ==> *final(store) == *old(store),
{
    let exists = match store {
        Some(s) => s.is_initialized,
        None => false,
    };
    if exists {
        return Err(ErrorCode::BlinkExists);
    }
    let next = BlinkRecord {
        blink: Blink::new(String::new(), title, icon, description, label, to_pubkey, link),
        is_initialized: true,
    };
    if !record_fits_in(&next, BLINK_RECORD_SPACE - ACCOUNT_HEADER_LEN) {
        return Err(ErrorCode::BudgetExceeded);
    }
    *store = Some(next);
    Ok(())
}

/// Closes the owner's single-record store; it must exist and be initialized.
pub fn close_blink_record(store: &mut Option<BlinkRecord>) -> (r: Result<(), ErrorCode>)
    ensures
        (r, record_view(*final(store))) == record_close_step(record_view(*old(store))),
        r is Err ==> *final(store) == *old(store),
{
    let exists = match store {
        Some(s) => s.is_initialized,
        None => false,
    };
    if !exists {
        return Err(ErrorCode::BlinkNotExist);
    }
    *store = None;
    Ok(())
}

} // verus!
