use vstd::prelude::*;
use crate::blink::{Blink, BlinkModel};

verus! {

/// The list store's persisted state.
pub struct BlinkList {
    pub blinks: Vec<Blink>,
    pub is_initialized: bool,
}

pub ghost struct BlinkListModel {
    pub blinks: Seq<BlinkModel>,
    pub is_initialized: bool,
}

impl View for BlinkList {
    type V = BlinkListModel;

    open spec fn view(&self) -> BlinkListModel {
        BlinkListModel { blinks: self.blinks@.map_values(|b: Blink| b@), is_initialized: self.is_initialized }
    }
}

/// The single-record store's persisted state; its record keeps an empty id.
pub struct BlinkRecord {
    pub blink: Blink,
    pub is_initialized: bool,
}

pub ghost struct BlinkRecordModel {
    pub blink: BlinkModel,
    pub is_initialized: bool,
}

impl View for BlinkRecord {
    type V = BlinkRecordModel;

    open spec fn view(&self) -> BlinkRecordModel {
        BlinkRecordModel { blink: self.blink@, is_initialized: self.is_initialized }
    }
}

impl BlinkListModel {
    pub open spec fn empty() -> BlinkListModel {
        BlinkListModel { blinks: Seq::empty(), is_initialized: false }
    }
}

impl BlinkRecordModel {
    pub open spec fn empty() -> BlinkRecordModel {
        BlinkRecordModel { blink: BlinkModel::empty(), is_initialized: false }
    }
}

impl BlinkList {
    /// The zero-valued list store: no records, not initialized.
    pub fn empty() -> (r: BlinkList)
        ensures
            r@ == BlinkListModel::empty(),
    {
        let r = BlinkList { blinks: Vec::new(), is_initialized: false };
        assert(r@.blinks =~= Seq::<BlinkModel>::empty());
        r
    }

    /// A field-by-field copy.
    pub fn duplicate(&self) -> (r: BlinkList)
        ensures
            r@ == self@,
    {
        let mut blinks: Vec<Blink> = Vec::new();
        let mut i: usize = 0;
        while i < self.blinks.len()
            invariant
                i <= self.blinks@.len(),
                blinks@.len() == i,
                forall|j: int| 0 <= j < i ==> (#[trigger] blinks@[j])@ == self.blinks@[j]@,
            decreases self.blinks@.len() - i,
        {
            blinks.push(self.blinks[i].duplicate());
            i = i + 1;
        }
        assert(blinks@.map_values(|b: Blink| b@) =~= self.blinks@.map_values(|b: Blink| b@));
        BlinkList { blinks, is_initialized: self.is_initialized }
    }
}

impl BlinkRecord {
    /// The zero-valued single-record store: empty fields, not initialized.
    pub fn empty() -> (r: BlinkRecord)
        ensures
            r@ == BlinkRecordModel::empty(),
    {
        BlinkRecord { blink: Blink::empty(), is_initialized: false }
    }
}

} // verus!
