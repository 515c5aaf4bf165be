use vstd::prelude::*;
use vstd::utf8::encode_utf8;
use crate::blink::{Blink, BlinkModel};
use crate::codec::{
    blink_fits, encode_blink, encode_blinks, encode_list, encode_record, encode_text, encode_texts,
    fields, lemma_blinks_step, lemma_texts_step, list_fits, record_fits, text_fits,
};
use crate::store::{BlinkList, BlinkListModel, BlinkRecord, BlinkRecordModel};

verus! {

/// The allocation of a list store's account.
pub const BLINK_LIST_SPACE: usize = 2048;

/// The allocation of a single-record store's account.
pub const BLINK_RECORD_SPACE: usize = 1052;

/// The bytes of an account that the ledger keeps ahead of the store's own.
pub const ACCOUNT_HEADER_LEN: usize = 8;

/// How many bytes a list store may take.
pub open spec fn list_budget() -> nat {
    (BLINK_LIST_SPACE - ACCOUNT_HEADER_LEN) as nat
}

/// How many bytes a single-record store may take.
pub open spec fn record_budget() -> nat {
    (BLINK_RECORD_SPACE - ACCOUNT_HEADER_LEN) as nat
}

proof fn lemma_texts_prefix(fs: Seq<Seq<char>>, i: int)
    requires
        0 <= i <= fs.len(),
    ensures
        encode_texts(fs.take(i)).len() <= encode_texts(fs).len(),
    decreases fs.len(),
{
    if i < fs.len() {
        assert(fs.take(i) =~= fs.drop_last().take(i));
        lemma_texts_prefix(fs.drop_last(), i);
    } else {
        assert(fs.take(i) =~= fs);
    }
}

proof fn lemma_blinks_prefix(s: Seq<BlinkModel>, i: int)
    requires
        0 <= i <= s.len(),
    ensures
        encode_blinks(s.take(i)).len() <= encode_blinks(s).len(),
    decreases s.len(),
{
    if i < s.len() {
        assert(s.take(i) =~= s.drop_last().take(i));
        lemma_blinks_prefix(s.drop_last(), i);
    } else {
        assert(s.take(i) =~= s);
    }
}

/// Every text of the layout is no longer than the whole.
proof fn lemma_texts_each(fs: Seq<Seq<char>>, i: int)
    requires
        0 <= i < fs.len(),
    ensures
        encode_utf8(fs[i]).len() <= encode_texts(fs).len(),
{
    lemma_texts_step(fs, i);
    lemma_texts_prefix(fs, i + 1);
}

proof fn lemma_blinks_each(s: Seq<BlinkModel>, i: int)
    requires
        0 <= i < s.len(),
    ensures
        encode_blink(s[i]).len() <= encode_blinks(s).len(),
{
    lemma_blinks_step(s, i);
    lemma_blinks_prefix(s, i + 1);
}

proof fn lemma_blinks_count(s: Seq<BlinkModel>)
    ensures
        s.len() <= encode_blinks(s).len(),
    decreases s.len(),
{
    if s.len() > 0 {
        lemma_blinks_count(s.drop_last());
        lemma_texts_each(fields(s.last()), 0);
        assert(encode_blink(s.last()).len() >= 4);
    }
}

proof fn lemma_blink_fits(b: BlinkModel, total: nat)
    requires
        encode_blink(b).len() <= total,
        total <= u32::MAX,
    ensures
        blink_fits(b),
{
    assert forall|i: int| 0 <= i < 7 implies text_fits(#[trigger] fields(b)[i]) by {
        lemma_texts_each(fields(b), i);
    }
}

/// A list store within a budget that a length prefix can hold fits its layout.
pub(crate) proof fn lemma_list_fits(m: BlinkListModel)
    requires
        encode_list(m).len() <= u32::MAX,
    ensures
        list_fits(m),
{
    lemma_blinks_count(m.blinks);
    assert forall|i: int| 0 <= i < m.blinks.len() implies blink_fits(#[trigger] m.blinks[i]) by {
        lemma_blinks_each(m.blinks, i);
        lemma_blink_fits(m.blinks[i], encode_list(m).len());
    }
}

pub(crate) proof fn lemma_record_fits(m: BlinkRecordModel)
    requires
        encode_record(m).len() <= u32::MAX,
    ensures
        record_fits(m),
{
    lemma_blink_fits(m.blink, encode_record(m).len());
}

/// Adds the stored size of `b` to `acc`; false where the sum would pass `limit`.
fn add_blink_len(acc: &mut usize, b: &Blink, limit: usize) -> (r: bool)
    requires
        *old(acc) <= limit,
    ensures
        r ==> *final(acc) == *old(acc) + encode_blink(b@).len() && *final(acc) <= limit,
        !r ==> *old(acc) + encode_blink(b@).len() > limit,
{
    let ghost fs = fields(b@);
    let ghost start = *acc;
    let mut j: usize = 0;
    assert(fs.take(0) =~= Seq::<Seq<char>>::empty());
    while j < 7
        invariant
            j <= 7,
            fs == fields(b@),
            start == *old(acc),
            *acc == start + encode_texts(fs.take(j as int)).len(),
            *acc <= limit,
        decreases 7 - j,
    {
        let f = b.field(j);
        let n = f.as_str().as_bytes().len();
        assert(encode_text(fs[j as int]).len() == 4 + n);
        proof {
            lemma_texts_step(fs, j as int);
            lemma_texts_prefix(fs, j as int + 1);
        }
        if 4 > limit - *acc || n > limit - *acc - 4 {
            return false;
        }
        *acc = *acc + 4 + n;
        j = j + 1;
    }
    assert(fs.take(7) =~= fs);
    true
}

/// Whether the list store's bytes fit in `limit`.
pub fn list_fits_in(list: &BlinkList, limit: usize) -> (r: bool)
    ensures
        r == (encode_list(list@).len() <= limit),
{
    if limit < 5 {
        return false;
    }
    let ghost s = list@.blinks;
    let mut acc: usize = 5;
    let mut i: usize = 0;
    assert(s.take(0) =~= Seq::<BlinkModel>::empty());
    while i < list.blinks.len()
        invariant
            i <= list.blinks@.len(),
            s == list@.blinks,
            acc == 5 + encode_blinks(s.take(i as int)).len(),
            acc <= limit,
        decreases list.blinks@.len() - i,
    {
        proof {
            lemma_blinks_step(s, i as int);
            lemma_blinks_prefix(s, i as int + 1);
        }
        if !add_blink_len(&mut acc, &list.blinks[i], limit) {
            return false;
        }
        i = i + 1;
    }
    assert(s.take(i as int) =~= s);
    true
}

/// Whether the single-record store's bytes fit in `limit`.
pub fn record_fits_in(rec: &BlinkRecord, limit: usize) -> (r: bool)
    ensures
        r == (encode_record(rec@).len() <= limit),
{
    if limit < 1 {
        return false;
    }
    let mut acc: usize = 1;
    add_blink_len(&mut acc, &rec.blink, limit)
}

/// A list store within its budget, as bytes; `None` where it is over budget.
pub fn encode_list_within(list: &BlinkList, limit: usize) -> (r: Option<Vec<u8>>)
    requires
        limit <= u32::MAX,
    ensures
        match r {
            Some(bytes) => bytes@ == encode_list(list@) && bytes@.len() <= limit,
            None => encode_list(list@).len() > limit,
        },
{
    if list_fits_in(list, limit) {
        proof {
            lemma_list_fits(list@);
        }
        Some(crate::codec::encode_blink_list(list))
    } else {
        None
    }
}

/// A single-record store within its budget, as bytes; `None` where it is over budget.
pub fn encode_record_within(rec: &BlinkRecord, limit: usize) -> (r: Option<Vec<u8>>)
    requires
        limit <= u32::MAX,
    ensures
        match r {
            Some(bytes) => bytes@ == encode_record(rec@) && bytes@.len() <= limit,
            None => encode_record(rec@).len() > limit,
        },
{
    if record_fits_in(rec, limit) {
        proof {
            lemma_record_fits(rec@);
        }
        Some(crate::codec::encode_blink_record(rec))
    } else {
        None
    }
}

} // verus!
