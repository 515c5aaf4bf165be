use funblink::{
    close_blink, close_blink_record, create_blink, create_blink_record, delete_blink, derive_slot,
    blink_list_seed, is_owner_slot_key, Blink, BlinkList, BlinkRecord, CloseBlink, CreateBlink,
    DeleteBlink, ErrorCode, initialize_list, initialize_record,
};

const PROGRAM: [u8; 32] = [7u8; 32];
const OWNER: [u8; 32] = [1u8; 32];

fn list_key(owner: &[u8; 32]) -> [u8; 32] {
    derive_slot(&blink_list_seed(), owner, &PROGRAM).expect("an address is found").0
}

fn create_ctx(list: Option<BlinkList>) -> CreateBlink {
    CreateBlink { blink_list: list, blink_list_key: list_key(&OWNER), signer: OWNER, program_id: PROGRAM }
}

fn s(x: &str) -> String {
    x.to_string()
}

fn create_with_id(ctx: &mut CreateBlink, id: &str, title: &str) -> Result<(), ErrorCode> {
    create_blink(ctx, s(id), s(title), s("icon"), s("desc"), s("label"), s("to"), s("link"))
}

fn ids(list: &BlinkList) -> Vec<String> {
    list.blinks.iter().map(|b| b.id.clone()).collect()
}

fn titles(list: &BlinkList) -> Vec<String> {
    list.blinks.iter().map(|b| b.title.clone()).collect()
}

#[test]
fn derive_slot_is_stable_across_calls() {
    let first = derive_slot(&blink_list_seed(), &OWNER, &PROGRAM);
    let second = derive_slot(&blink_list_seed(), &OWNER, &PROGRAM);
    assert!(first.is_some());
    assert_eq!(first, second);
    let other = derive_slot(&blink_list_seed(), &[2u8; 32], &PROGRAM);
    assert_ne!(first.unwrap().0, other.unwrap().0);
    let other_tag = derive_slot(b"other_tag", &OWNER, &PROGRAM);
    assert_ne!(first.unwrap().0, other_tag.unwrap().0);
}

#[test]
fn blink_list_seed_is_the_namespace_tag() {
    assert_eq!(blink_list_seed(), b"blink_list".to_vec());
}

#[test]
fn owner_slot_key_accepts_only_the_derived_address() {
    let key = list_key(&OWNER);
    assert!(is_owner_slot_key(&key, &OWNER, &PROGRAM));
    assert!(!is_owner_slot_key(&[0u8; 32], &OWNER, &PROGRAM));
    assert!(!is_owner_slot_key(&key, &[2u8; 32], &PROGRAM));
}

#[test]
fn create_on_fresh_list_store() {
    let mut ctx = create_ctx(None);
    assert_eq!(
        create_blink(&mut ctx, s("a"), s("T"), s("I"), s("D"), s("L"), s("P"), s("K")),
        Ok(())
    );
    let list = ctx.blink_list.as_ref().unwrap();
    assert!(list.is_initialized);
    assert_eq!(list.blinks.len(), 1);
    let b = &list.blinks[0];
    assert_eq!(
        (&b.id[..], &b.title[..], &b.icon[..], &b.description[..], &b.label[..], &b.to_pubkey[..], &b.link[..]),
        ("a", "T", "I", "D", "L", "P", "K")
    );
}

#[test]
fn create_with_wrong_address_is_refused() {
    let mut ctx = create_ctx(None);
    ctx.blink_list_key = [9u8; 32];
    assert_eq!(create_with_id(&mut ctx, "a", "t"), Err(ErrorCode::ConstraintSeeds));
    assert!(ctx.blink_list.is_none());
}

#[test]
fn list_creates_keep_call_order_and_duplicates() {
    let mut ctx = create_ctx(None);
    for (id, title) in [("a", "1"), ("b", "2"), ("c", "3"), ("a", "4")] {
        assert_eq!(create_with_id(&mut ctx, id, title), Ok(()));
    }
    let list = ctx.blink_list.as_ref().unwrap();
    assert_eq!(ids(list), vec!["a", "b", "c", "a"]);
    assert_eq!(titles(list), vec!["1", "2", "3", "4"]);
}

#[test]
fn list_create_over_budget_leaves_store_unchanged() {
    let mut ctx = create_ctx(None);
    assert_eq!(create_with_id(&mut ctx, "a", "small"), Ok(()));
    let big = "x".repeat(2040);
    assert_eq!(create_with_id(&mut ctx, "b", &big), Err(ErrorCode::BudgetExceeded));
    let list = ctx.blink_list.as_ref().unwrap();
    assert_eq!(ids(list), vec!["a"]);
}

#[test]
fn list_create_fills_the_budget_exactly() {
    // 5 bytes of list framing, 7 length prefixes and 17 bytes of other fields
    // leave 2040 - 50 = 1990 bytes for the title.
    let mut ctx = create_ctx(None);
    let title = "x".repeat(1990);
    assert_eq!(
        create_blink(&mut ctx, s("a"), title.clone(), s("icon"), s("desc"), s("la"), s("to"), s("link")),
        Ok(())
    );
    let mut ctx2 = create_ctx(None);
    assert_eq!(
        create_blink(&mut ctx2, s("a"), title + "y", s("icon"), s("desc"), s("la"), s("to"), s("link")),
        Err(ErrorCode::BudgetExceeded)
    );
}

fn delete_ctx(list: BlinkList) -> DeleteBlink {
    DeleteBlink { blink_list: list, blink_list_key: list_key(&OWNER), signer: OWNER, program_id: PROGRAM }
}

#[test]
fn delete_removes_every_match_in_order() {
    let mut ctx = create_ctx(None);
    for (id, title) in [("a", "1"), ("b", "2"), ("a", "3"), ("c", "4"), ("a", "5")] {
        create_with_id(&mut ctx, id, title).unwrap();
    }
    let mut del = delete_ctx(ctx.blink_list.take().unwrap());
    assert_eq!(delete_blink(&mut del, s("a")), Ok(()));
    assert_eq!(ids(&del.blink_list), vec!["b", "c"]);
    assert_eq!(titles(&del.blink_list), vec!["2", "4"]);
    assert!(del.blink_list.is_initialized);
}

#[test]
fn delete_without_match_is_a_no_op() {
    let mut ctx = create_ctx(None);
    for id in ["a", "b"] {
        create_with_id(&mut ctx, id, id).unwrap();
    }
    let mut del = delete_ctx(ctx.blink_list.take().unwrap());
    assert_eq!(delete_blink(&mut del, s("zzz")), Ok(()));
    assert_eq!(ids(&del.blink_list), vec!["a", "b"]);
}

#[test]
fn delete_with_wrong_address_is_refused() {
    let mut ctx = create_ctx(None);
    create_with_id(&mut ctx, "a", "t").unwrap();
    let mut del = delete_ctx(ctx.blink_list.take().unwrap());
    del.signer = [3u8; 32];
    assert_eq!(delete_blink(&mut del, s("a")), Err(ErrorCode::ConstraintSeeds));
    assert_eq!(ids(&del.blink_list), vec!["a"]);
}

#[test]
fn list_create_then_delete_scenario() {
    let mut ctx = create_ctx(None);
    create_with_id(&mut ctx, "a", "first").unwrap();
    create_with_id(&mut ctx, "b", "second").unwrap();
    let mut del = delete_ctx(ctx.blink_list.take().unwrap());
    delete_blink(&mut del, s("a")).unwrap();
    assert_eq!(ids(&del.blink_list), vec!["b"]);
    assert_eq!(titles(&del.blink_list), vec!["second"]);
}

fn close_ctx(list: Option<BlinkList>) -> CloseBlink {
    CloseBlink { blink_list: list, blink_list_key: list_key(&OWNER), signer: OWNER, program_id: PROGRAM }
}

#[test]
fn close_absent_list_store_fails() {
    let mut ctx = close_ctx(None);
    assert_eq!(close_blink(&mut ctx), Err(ErrorCode::BlinkNotExist));
}

#[test]
fn close_uninitialized_list_store_fails() {
    let mut ctx = close_ctx(Some(BlinkList::empty()));
    assert_eq!(close_blink(&mut ctx), Err(ErrorCode::BlinkNotExist));
    assert!(ctx.blink_list.is_some());
}

#[test]
fn close_then_create_starts_fresh() {
    let mut ctx = create_ctx(None);
    create_with_id(&mut ctx, "a", "t").unwrap();
    let mut close = close_ctx(ctx.blink_list.take());
    assert_eq!(close_blink(&mut close), Ok(()));
    assert!(close.blink_list.is_none());
    assert_eq!(close_blink(&mut close), Err(ErrorCode::BlinkNotExist));
    let mut again = create_ctx(close.blink_list.take());
    assert_eq!(create_with_id(&mut again, "b", "u"), Ok(()));
    assert_eq!(ids(again.blink_list.as_ref().unwrap()), vec!["b"]);
}

#[test]
fn close_with_wrong_address_is_refused() {
    let mut ctx = create_ctx(None);
    create_with_id(&mut ctx, "a", "t").unwrap();
    let mut close = close_ctx(ctx.blink_list.take());
    close.program_id = [8u8; 32];
    assert_eq!(close_blink(&mut close), Err(ErrorCode::ConstraintSeeds));
    assert!(close.blink_list.is_some());
}

fn record_fields(rec: &BlinkRecord) -> Vec<String> {
    let b: &Blink = &rec.blink;
    vec![
        b.id.clone(),
        b.title.clone(),
        b.icon.clone(),
        b.description.clone(),
        b.label.clone(),
        b.to_pubkey.clone(),
        b.link.clone(),
    ]
}

#[test]
fn single_record_scenario_create_read_close() {
    let mut store: Option<BlinkRecord> = None;
    assert_eq!(
        create_blink_record(&mut store, s("Buy Coffee"), s(""), s(""), s(""), s("Abc123"), s("https://x")),
        Ok(())
    );
    let rec = store.as_ref().unwrap();
    assert!(rec.is_initialized);
    assert_eq!(rec.blink.title, "Buy Coffee");
    assert_eq!(rec.blink.to_pubkey, "Abc123");
    assert_eq!(rec.blink.link, "https://x");
    assert_eq!(close_blink_record(&mut store), Ok(()));
    assert!(store.is_none());
    assert_eq!(close_blink_record(&mut store), Err(ErrorCode::BlinkNotExist));
}

#[test]
fn single_record_second_create_fails_unchanged() {
    let mut store: Option<BlinkRecord> = None;
    create_blink_record(&mut store, s("one"), s("i"), s("d"), s("l"), s("p"), s("k")).unwrap();
    let before = record_fields(store.as_ref().unwrap());
    assert_eq!(
        create_blink_record(&mut store, s("two"), s("i2"), s("d2"), s("l2"), s("p2"), s("k2")),
        Err(ErrorCode::BlinkExists)
    );
    assert_eq!(record_fields(store.as_ref().unwrap()), before);
    assert_eq!(before, vec!["", "one", "i", "d", "l", "p", "k"]);
}

#[test]
fn single_record_close_then_create_again() {
    let mut store: Option<BlinkRecord> = None;
    create_blink_record(&mut store, s("one"), s(""), s(""), s(""), s(""), s("")).unwrap();
    close_blink_record(&mut store).unwrap();
    assert_eq!(
        create_blink_record(&mut store, s("two"), s(""), s(""), s(""), s(""), s("")),
        Ok(())
    );
    assert_eq!(store.as_ref().unwrap().blink.title, "two");
}

#[test]
fn single_record_over_budget_is_refused() {
    let mut store: Option<BlinkRecord> = None;
    let big = "y".repeat(1100);
    assert_eq!(
        create_blink_record(&mut store, big, s(""), s(""), s(""), s(""), s("")),
        Err(ErrorCode::BudgetExceeded)
    );
    assert!(store.is_none());
}

#[test]
fn initialize_checks_the_budget() {
    assert_eq!(initialize_list(4).err(), Some(ErrorCode::BudgetExceeded));
    let l = initialize_list(5).ok().unwrap();
    assert!(l.blinks.is_empty() && !l.is_initialized);
    assert_eq!(initialize_record(28).err(), Some(ErrorCode::BudgetExceeded));
    let r = initialize_record(29).ok().unwrap();
    assert!(!r.is_initialized);
    assert_eq!(r.blink.title, "");
}
