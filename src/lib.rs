//! On-chain "Blink" registries: per-owner stores of link-preview records,
//! located at a derived program address, kept inside a fixed byte budget,
//! created, edited and closed through a small lifecycle.

mod blink;
mod budget;
mod codec;
mod laws;
mod lifecycle;
mod slot;
mod store;

pub use blink::{Blink, BlinkModel, ErrorCode};
pub use budget::{
    encode_list_within, encode_record_within, list_budget, list_fits_in, record_budget,
    record_fits_in, ACCOUNT_HEADER_LEN, BLINK_LIST_SPACE, BLINK_RECORD_SPACE,
};
pub use codec::{
    decode_blink_list, decode_blink_record, encode_blink, encode_blink_list, encode_blink_record,
    encode_list, encode_record, list_round_trip, parse_list, parse_record, record_round_trip,
};
pub use laws::{
    list_close_then_create, list_create_appends, list_create_on_absent, list_creates_keep_call_order,
    list_delete_removes_all_matches, record_close_then_create, record_create_on_absent,
    record_second_create_fails, run_creates, stored_list_round_trip, stored_record_round_trip,
};
pub use lifecycle::{
    close_blink, close_blink_record, create_blink, create_blink_record, delete_blink,
    initialize_list, initialize_record, list_after_create, list_after_delete, list_close_step,
    list_create_step, list_delete_step, list_view, new_blink, record_after_create,
    record_close_step, record_create_step, record_view, CloseBlink, CreateBlink, DeleteBlink,
};
pub use slot::{
    blink_list_seed, blink_list_tag, derive_slot, derive_slot_is_deterministic, is_owner_slot,
    is_owner_slot_key, program_address_of, slot_view,
};
pub use store::{BlinkList, BlinkListModel, BlinkRecord, BlinkRecordModel};
