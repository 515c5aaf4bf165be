use vstd::prelude::*;

verus! {

/// What a record is, as text: one sequence of characters per field.
pub ghost struct BlinkModel {
    pub id: Seq<char>,
    pub title: Seq<char>,
    pub icon: Seq<char>,
    pub description: Seq<char>,
    pub label: Seq<char>,
    pub to_pubkey: Seq<char>,
    pub link: Seq<char>,
}

/// One link-preview / payment descriptor.
pub struct Blink {
    pub id: String,
    pub title: String,
    pub icon: String,
    pub description: String,
    pub label: String,
    pub to_pubkey: String,
    pub link: String,
}

impl View for Blink {
    type V = BlinkModel;

    open spec fn view(&self) -> BlinkModel {
        BlinkModel {
            id: self.id@,
            title: self.title@,
            icon: self.icon@,
            description: self.description@,
            label: self.label@,
            to_pubkey: self.to_pubkey@,
            link: self.link@,
        }
    }
}

impl Blink {
    pub fn new(
        id: String,
        title: String,
        icon: String,
        description: String,
        label: String,
        to_pubkey: String,
        link: String,
    ) -> (r: Blink)
        ensures
            r.id@ == id@,
            r.title@ == title@,
            r.icon@ == icon@,
            r.description@ == description@,
            r.label@ == label@,
            r.to_pubkey@ == to_pubkey@,
            r.link@ == link@,
    {
        Blink { id, title, icon, description, label, to_pubkey, link }
    }

    /// A record with every field empty.
    pub fn empty() -> (r: Blink)
        ensures
            r@ == BlinkModel::empty(),
    {
        Blink {
            id: String::new(),
            title: String::new(),
            icon: String::new(),
            description: String::new(),
            label: String::new(),
            to_pubkey: String::new(),
            link: String::new(),
        }
    }

    /// A field-by-field copy.
    pub fn duplicate(&self) -> (r: Blink)
        ensures
            r@ == self@,
    {
        Blink {
            id: self.id.clone(),
            title: self.title.clone(),
            icon: self.icon.clone(),
            description: self.description.clone(),
            label: self.label.clone(),
            to_pubkey: self.to_pubkey.clone(),
            link: self.link.clone(),
        }
    }
}

impl BlinkModel {
    pub open spec fn empty() -> BlinkModel {
        BlinkModel {
            id: Seq::empty(),
            title: Seq::empty(),
            icon: Seq::empty(),
            description: Seq::empty(),
            label: Seq::empty(),
            to_pubkey: Seq::empty(),
            link: Seq::empty(),
        }
    }
}

/// The typed failures of the lifecycle and of the codec.
#[derive(PartialEq, Eq, Structural, Debug, Clone, Copy)]
pub enum ErrorCode {
    /// A single-record store is already initialized.
    BlinkExists,
    /// The store to close does not exist or was never initialized.
    BlinkNotExist,
    /// The store would not fit in its storage budget.
    BudgetExceeded,
    /// The bytes of a store are malformed.
    CorruptStore,
    /// The store's address is not the one derived for its owner.
    ConstraintSeeds,
}

} // verus!
