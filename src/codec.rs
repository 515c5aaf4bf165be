use vstd::prelude::*;
use vstd::utf8::{decode_utf8, encode_utf8, valid_utf8};
use crate::blink::{Blink, BlinkModel};
use crate::store::{BlinkList, BlinkListModel, BlinkRecord, BlinkRecordModel};
use crate::blink::ErrorCode;

verus! {

broadcast use vstd::utf8::group_utf8_lib;

/// `n` as four little-endian bytes.
pub open spec fn u32_le(n: nat) -> Seq<u8> {
    seq![(n % 256) as u8, ((n / 256) % 256) as u8, ((n / 65536) % 256) as u8, ((n / 16777216) % 256) as u8]
}

/// The little-endian number in the four bytes at `pos`.
pub open spec fn u32_at(b: Seq<u8>, pos: int) -> nat {
    (b[pos] as nat) + 256 * (b[pos + 1] as nat) + 65536 * (b[pos + 2] as nat) + 16777216 * (b[pos + 3] as nat)
}

/// A text: the length of its UTF-8 bytes, then the bytes.
pub open spec fn encode_text(s: Seq<char>) -> Seq<u8> {
    u32_le(encode_utf8(s).len()) + encode_utf8(s)
}

pub open spec fn encode_texts(fs: Seq<Seq<char>>) -> Seq<u8>
    decreases fs.len(),
{
    if fs.len() == 0 {
        Seq::empty()
    } else {
        encode_texts(fs.drop_last()) + encode_text(fs.last())
    }
}

/// The fields of a record, in their stored order.
pub open spec fn fields(b: BlinkModel) -> Seq<Seq<char>> {
    seq![b.id, b.title, b.icon, b.description, b.label, b.to_pubkey, b.link]
}

pub open spec fn blink_of(fs: Seq<Seq<char>>) -> BlinkModel {
    BlinkModel {
        id: fs[0],
        title: fs[1],
        icon: fs[2],
        description: fs[3],
        label: fs[4],
        to_pubkey: fs[5],
        link: fs[6],
    }
}

pub open spec fn encode_blink(b: BlinkModel) -> Seq<u8> {
    encode_texts(fields(b))
}

pub open spec fn encode_blinks(s: Seq<BlinkModel>) -> Seq<u8>
    decreases s.len(),
{
    if s.len() == 0 {
        Seq::empty()
    } else {
        encode_blinks(s.drop_last()) + encode_blink(s.last())
    }
}

pub open spec fn flag_byte(f: bool) -> u8 {
    if f { 1 } else { 0 }
}

/// A list store: the record count, the records, then the flag byte.
pub open spec fn encode_list(m: BlinkListModel) -> Seq<u8> {
    u32_le(m.blinks.len()) + encode_blinks(m.blinks) + seq![flag_byte(m.is_initialized)]
}

/// A single-record store: the flag byte, then the record.
pub open spec fn encode_record(m: BlinkRecordModel) -> Seq<u8> {
    seq![flag_byte(m.is_initialized)] + encode_blink(m.blink)
}

pub open spec fn text_fits(s: Seq<char>) -> bool {
    encode_utf8(s).len() <= u32::MAX
}

pub open spec fn blink_fits(b: BlinkModel) -> bool {
    forall|i: int| 0 <= i < 7 ==> text_fits(#[trigger] fields(b)[i])
}

/// Every length prefix of the store's layout fits in four bytes.
pub open spec fn list_fits(m: BlinkListModel) -> bool {
    &&& m.blinks.len() <= u32::MAX
    &&& forall|i: int| 0 <= i < m.blinks.len() ==> blink_fits(#[trigger] m.blinks[i])
}

pub open spec fn record_fits(m: BlinkRecordModel) -> bool {
    blink_fits(m.blink)
}

/// The text whose layout starts at `pos`, and where it ends.
pub open spec fn parse_text(b: Seq<u8>, pos: int) -> Option<(Seq<char>, int)> {
    if 0 <= pos && pos + 4 <= b.len() {
        let end = pos + 4 + u32_at(b, pos);
        if end <= b.len() && valid_utf8(b.subrange(pos + 4, end)) {
            Some((decode_utf8(b.subrange(pos + 4, end)), end))
        } else {
            None
        }
    } else {
        None
    }
}

/// The `k` texts laid out one after another from `pos`, and where they end.
pub open spec fn parse_texts(b: Seq<u8>, pos: int, k: nat) -> Option<(Seq<Seq<char>>, int)>
    decreases k,
{
    if k == 0 {
        Some((Seq::empty(), pos))
    } else {
        match parse_texts(b, pos, (k - 1) as nat) {
            Some((fs, p)) => match parse_text(b, p) {
                Some((t, q)) => Some((fs.push(t), q)),
                None => None,
            },
            None => None,
        }
    }
}

pub open spec fn parse_blink(b: Seq<u8>, pos: int) -> Option<(BlinkModel, int)> {
    match parse_texts(b, pos, 7) {
        Some((fs, p)) => Some((blink_of(fs), p)),
        None => None,
    }
}

pub open spec fn parse_blinks(b: Seq<u8>, pos: int, k: nat) -> Option<(Seq<BlinkModel>, int)>
    decreases k,
{
    if k == 0 {
        Some((Seq::empty(), pos))
    } else {
        match parse_blinks(b, pos, (k - 1) as nat) {
            Some((s, p)) => match parse_blink(b, p) {
                Some((x, q)) => Some((s.push(x), q)),
                None => None,
            },
            None => None,
        }
    }
}

pub open spec fn parse_flag(b: Seq<u8>, pos: int) -> Option<bool> {
    if 0 <= pos < b.len() && b[pos] == 0 {
        Some(false)
    } else if 0 <= pos < b.len() && b[pos] == 1 {
        Some(true)
    } else {
        None
    }
}

/// The list store laid out at the start of `b`; bytes after it are padding.
pub open spec fn parse_list(b: Seq<u8>) -> Option<BlinkListModel> {
    if 4 <= b.len() {
        match parse_blinks(b, 4, u32_at(b, 0)) {
            Some((s, p)) => match parse_flag(b, p) {
                Some(f) => Some(BlinkListModel { blinks: s, is_initialized: f }),
                None => None,
            },
            None => None,
        }
    } else {
        None
    }
}

/// The single-record store laid out at the start of `b`.
pub open spec fn parse_record(b: Seq<u8>) -> Option<BlinkRecordModel> {
    match parse_flag(b, 0) {
        Some(f) => match parse_blink(b, 1) {
            Some((x, _)) => Some(BlinkRecordModel { blink: x, is_initialized: f }),
            None => None,
        },
        None => None,
    }
}

proof fn lemma_u32_round_trip(pre: Seq<u8>, n: nat, rest: Seq<u8>)
    requires
        n <= u32::MAX,
    ensures
        u32_at(pre + u32_le(n) + rest, pre.len() as int) == n,
{
    let b = pre + u32_le(n) + rest;
    let p = pre.len() as int;
    assert(b[p] == u32_le(n)[0]);
    assert(b[p + 1] == u32_le(n)[1]);
    assert(b[p + 2] == u32_le(n)[2]);
    assert(b[p + 3] == u32_le(n)[3]);
    assert((n % 256) + 256 * ((n / 256) % 256) + 65536 * ((n / 65536) % 256) + 16777216 * ((n / 16777216) % 256) == n)
        by (nonlinear_arith)
        requires n <= 4294967295;
}

proof fn lemma_parse_text(pre: Seq<u8>, s: Seq<char>, rest: Seq<u8>)
    requires
        text_fits(s),
    ensures
        parse_text(pre + encode_text(s) + rest, pre.len() as int) == Some(
            (s, (pre.len() + encode_text(s).len()) as int),
        ),
{
    let bytes = encode_utf8(s);
    let n = bytes.len();
    let b = pre + encode_text(s) + rest;
    let p = pre.len() as int;
    assert(b =~= pre + u32_le(n) + (bytes + rest));
    lemma_u32_round_trip(pre, n, bytes + rest);
    assert(b.subrange(p + 4, p + 4 + n) =~= bytes);
}

proof fn lemma_parse_texts(pre: Seq<u8>, fs: Seq<Seq<char>>, rest: Seq<u8>)
    requires
        forall|i: int| 0 <= i < fs.len() ==> text_fits(#[trigger] fs[i]),
    ensures
        parse_texts(pre + encode_texts(fs) + rest, pre.len() as int, fs.len()) == Some(
            (fs, (pre.len() + encode_texts(fs).len()) as int),
        ),
    decreases fs.len(),
{
    if fs.len() > 0 {
        let init = fs.drop_last();
        let b = pre + encode_texts(fs) + rest;
        assert(b =~= pre + encode_texts(init) + (encode_text(fs.last()) + rest));
        lemma_parse_texts(pre, init, encode_text(fs.last()) + rest);
        assert(b =~= (pre + encode_texts(init)) + encode_text(fs.last()) + rest);
        lemma_parse_text(pre + encode_texts(init), fs.last(), rest);
        assert(init.push(fs.last()) =~= fs);
    } else {
        assert(fs =~= Seq::<Seq<char>>::empty());
    }
}

proof fn lemma_parse_blink(pre: Seq<u8>, x: BlinkModel, rest: Seq<u8>)
    requires
        blink_fits(x),
    ensures
        parse_blink(pre + encode_blink(x) + rest, pre.len() as int) == Some(
            (x, (pre.len() + encode_blink(x).len()) as int),
        ),
{
    assert(forall|i: int| 0 <= i < fields(x).len() ==> text_fits(#[trigger] fields(x)[i]));
    lemma_parse_texts(pre, fields(x), rest);
    assert(blink_of(fields(x)) == x);
}

proof fn lemma_parse_blinks(pre: Seq<u8>, s: Seq<BlinkModel>, rest: Seq<u8>)
    requires
        forall|i: int| 0 <= i < s.len() ==> blink_fits(#[trigger] s[i]),
    ensures
        parse_blinks(pre + encode_blinks(s) + rest, pre.len() as int, s.len()) == Some(
            (s, (pre.len() + encode_blinks(s).len()) as int),
        ),
    decreases s.len(),
{
    if s.len() > 0 {
        let init = s.drop_last();
        let b = pre + encode_blinks(s) + rest;
        assert(b =~= pre + encode_blinks(init) + (encode_blink(s.last()) + rest));
        lemma_parse_blinks(pre, init, encode_blink(s.last()) + rest);
        assert(b =~= (pre + encode_blinks(init)) + encode_blink(s.last()) + rest);
        lemma_parse_blink(pre + encode_blinks(init), s.last(), rest);
        assert(init.push(s.last()) =~= s);
    } else {
        assert(s =~= Seq::<BlinkModel>::empty());
    }
}

/// Decoding a list store's bytes, followed by any padding, gives the store back.
pub proof fn list_round_trip(m: BlinkListModel, padding: Seq<u8>)
    requires
        list_fits(m),
    ensures
        parse_list(encode_list(m) + padding) == Some(m),
{
    let b = encode_list(m) + padding;
    let n = m.blinks.len();
    assert(b =~= Seq::<u8>::empty() + u32_le(n) + (encode_blinks(m.blinks) + seq![flag_byte(m.is_initialized)] + padding));
    lemma_u32_round_trip(Seq::empty(), n, encode_blinks(m.blinks) + seq![flag_byte(m.is_initialized)] + padding);
    assert(b =~= u32_le(n) + encode_blinks(m.blinks) + (seq![flag_byte(m.is_initialized)] + padding));
    lemma_parse_blinks(u32_le(n), m.blinks, seq![flag_byte(m.is_initialized)] + padding);
    let p = 4 + encode_blinks(m.blinks).len() as int;
    assert(b[p] == flag_byte(m.is_initialized));
}

/// Decoding a single-record store's bytes, followed by any padding, gives the
/// store back.
pub proof fn record_round_trip(m: BlinkRecordModel, padding: Seq<u8>)
    requires
        record_fits(m),
    ensures
        parse_record(encode_record(m) + padding) == Some(m),
{
    let b = encode_record(m) + padding;
    assert(b =~= seq![flag_byte(m.is_initialized)] + encode_blink(m.blink) + padding);
    lemma_parse_blink(seq![flag_byte(m.is_initialized)], m.blink, padding);
}


/// Relies on `String::from_utf8`: it accepts exactly the valid UTF-8 byte
/// sequences, and the string then holds the characters that they encode.
#[verifier::external_body]
fn string_from_utf8(v: Vec<u8>) -> (r: Option<String>)
    ensures
        r is Some <==> valid_utf8(v@),
        r matches Some(s) ==> s@ == decode_utf8(v@),
{
    String::from_utf8(v).ok()
}

impl Blink {
    /// The `i`-th field in stored order.
    pub fn field(&self, i: usize) -> (r: &String)
        requires
            i < 7,
        ensures
            r@ == fields(self@)[i as int],
    {
        if i == 0 {
            &self.id
        } else if i == 1 {
            &self.title
        } else if i == 2 {
            &self.icon
        } else if i == 3 {
            &self.description
        } else if i == 4 {
            &self.label
        } else if i == 5 {
            &self.to_pubkey
        } else {
            &self.link
        }
    }
}

fn push_u32(out: &mut Vec<u8>, n: u32)
    ensures
        final(out)@ == old(out)@ + u32_le(n as nat),
{
    out.push((n % 256) as u8);
    out.push((n / 256 % 256) as u8);
    out.push((n / 65536 % 256) as u8);
    out.push((n / 16777216 % 256) as u8);
    assert(out@ =~= old(out)@ + u32_le(n as nat));
}

fn push_text(out: &mut Vec<u8>, s: &str)
    requires
        text_fits(s@),
    ensures
        final(out)@ == old(out)@ + encode_text(s@),
{
    let bytes = s.as_bytes();
    push_u32(out, bytes.len() as u32);
    let ghost start = out@;
    let mut i: usize = 0;
    while i < bytes.len()
        invariant
            i <= bytes@.len(),
            out@ == start + bytes@.take(i as int),
        decreases bytes@.len() - i,
    {
        out.push(bytes[i]);
        i = i + 1;
        assert(out@ =~= start + bytes@.take(i as int));
    }
    assert(bytes@.take(i as int) =~= bytes@);
    assert(out@ =~= old(out)@ + encode_text(s@));
}

pub(crate) proof fn lemma_texts_step(fs: Seq<Seq<char>>, i: int)
    requires
        0 <= i < fs.len(),
    ensures
        encode_texts(fs.take(i + 1)) == encode_texts(fs.take(i)) + encode_text(fs[i]),
{
    assert(fs.take(i + 1).drop_last() =~= fs.take(i));
}

pub(crate) proof fn lemma_blinks_step(s: Seq<BlinkModel>, i: int)
    requires
        0 <= i < s.len(),
    ensures
        encode_blinks(s.take(i + 1)) == encode_blinks(s.take(i)) + encode_blink(s[i]),
{
    assert(s.take(i + 1).drop_last() =~= s.take(i));
}

fn push_blink(out: &mut Vec<u8>, b: &Blink)
    requires
        blink_fits(b@),
    ensures
        final(out)@ == old(out)@ + encode_blink(b@),
{
    let ghost start = out@;
    let ghost fs = fields(b@);
    let mut i: usize = 0;
    assert(fs.take(0) =~= Seq::<Seq<char>>::empty());
    while i < 7
        invariant
            i <= 7,
            fs == fields(b@),
            blink_fits(b@),
            out@ == start + encode_texts(fs.take(i as int)),
        decreases 7 - i,
    {
        assert(text_fits(fs[i as int]));
        push_text(out, b.field(i).as_str());
        proof {
            lemma_texts_step(fs, i as int);
        }
        i = i + 1;
        assert(out@ =~= start + encode_texts(fs.take(i as int)));
    }
    assert(fs.take(7) =~= fs);
}

/// The bytes of a list store.
pub fn encode_blink_list(list: &BlinkList) -> (r: Vec<u8>)
    requires
        list_fits(list@),
    ensures
        r@ == encode_list(list@),
{
    let ghost s = list@.blinks;
    let mut out: Vec<u8> = Vec::new();
    push_u32(&mut out, list.blinks.len() as u32);
    let ghost start = out@;
    assert(s.take(0) =~= Seq::<BlinkModel>::empty());
    let mut i: usize = 0;
    while i < list.blinks.len()
        invariant
            i <= list.blinks@.len(),
            s == list@.blinks,
            list_fits(list@),
            out@ == start + encode_blinks(s.take(i as int)),
        decreases list.blinks@.len() - i,
    {
        assert(blink_fits(s[i as int]));
        push_blink(&mut out, &list.blinks[i]);
        proof {
            lemma_blinks_step(s, i as int);
        }
        i = i + 1;
        assert(out@ =~= start + encode_blinks(s.take(i as int)));
    }
    assert(s.take(i as int) =~= s);
    if list.is_initialized {
        out.push(1u8);
    } else {
        out.push(0u8);
    }
    assert(out@ =~= encode_list(list@));
    out
}

/// The bytes of a single-record store.
pub fn encode_blink_record(rec: &BlinkRecord) -> (r: Vec<u8>)
    requires
        record_fits(rec@),
    ensures
        r@ == encode_record(rec@),
{
    let mut out: Vec<u8> = Vec::new();
    if rec.is_initialized {
        out.push(1u8);
    } else {
        out.push(0u8);
    }
    push_blink(&mut out, &rec.blink);
    assert(out@ =~= encode_record(rec@));
    out
}


fn read_u32(b: &[u8], pos: usize) -> (r: Option<u32>)
    ensures
        r is Some <==> pos + 4 <= b@.len(),
        r matches Some(n) ==> n as nat == u32_at(b@, pos as int),
{
    if pos <= b.len() && 4 <= b.len() - pos {
        let n: u32 = b[pos] as u32 + 256 * (b[pos + 1] as u32) + 65536 * (b[pos + 2] as u32) + 16777216 * (
        b[pos + 3] as u32);
        Some(n)
    } else {
        None
    }
}

fn read_text(b: &[u8], pos: usize) -> (r: Option<(String, usize)>)
    ensures
        match r {
            Some((s, p)) => parse_text(b@, pos as int) == Some((s@, p as int)),
            None => parse_text(b@, pos as int) is None,
        },
{
    let n = match read_u32(b, pos) {
        Some(n) => n as usize,
        None => {
            return None;
        },
    };
    let len = b.len();
    let start = pos + 4;
    if n > len - start {
        return None;
    }
    let end = start + n;
    let mut v: Vec<u8> = Vec::new();
    let mut i: usize = start;
    while i < end
        invariant
            start <= i <= end <= b@.len(),
            v@ == b@.subrange(start as int, i as int),
        decreases end - i,
    {
        v.push(b[i]);
        i = i + 1;
        assert(v@ =~= b@.subrange(start as int, i as int));
    }
    match string_from_utf8(v) {
        Some(s) => Some((s, end)),
        None => None,
    }
}

proof fn lemma_parse_texts_stops(b: Seq<u8>, pos: int, i: nat, k: nat)
    requires
        i <= k,
        parse_texts(b, pos, i) is None,
    ensures
        parse_texts(b, pos, k) is None,
    decreases k,
{
    if i < k {
        lemma_parse_texts_stops(b, pos, i, (k - 1) as nat);
    }
}

proof fn lemma_parse_blinks_stops(b: Seq<u8>, pos: int, i: nat, k: nat)
    requires
        i <= k,
        parse_blinks(b, pos, i) is None,
    ensures
        parse_blinks(b, pos, k) is None,
    decreases k,
{
    if i < k {
        lemma_parse_blinks_stops(b, pos, i, (k - 1) as nat);
    }
}

pub open spec fn texts_view(v: Seq<String>) -> Seq<Seq<char>> {
    v.map_values(|s: String| s@)
}

fn read_blink(b: &[u8], pos: usize) -> (r: Option<(Blink, usize)>)
    ensures
        match r {
            Some((x, p)) => parse_blink(b@, pos as int) == Some((x@, p as int)),
            None => parse_blink(b@, pos as int) is None,
        },
{
    let mut texts: Vec<String> = Vec::new();
    let mut p: usize = pos;
    let mut i: usize = 0;
    assert(texts_view(texts@) =~= Seq::<Seq<char>>::empty());
    while i < 7
        invariant
            i <= 7,
            texts@.len() == i,
            parse_texts(b@, pos as int, i as nat) == Some((texts_view(texts@), p as int)),
        decreases 7 - i,
    {
        match read_text(b, p) {
            Some((t, q)) => {
                let ghost old_texts = texts@;
                texts.push(t);
                assert(texts_view(texts@) =~= texts_view(old_texts).push(t@));
                p = q;
            },
            None => {
                proof {
                    lemma_parse_texts_stops(b@, pos as int, (i + 1) as nat, 7);
                }
                return None;
            },
        }
        i = i + 1;
    }
    let ghost fs = texts_view(texts@);
    let link = texts.pop().unwrap();
    let to_pubkey = texts.pop().unwrap();
    let label = texts.pop().unwrap();
    let description = texts.pop().unwrap();
    let icon = texts.pop().unwrap();
    let title = texts.pop().unwrap();
    let id = texts.pop().unwrap();
    let x = Blink { id, title, icon, description, label, to_pubkey, link };
    assert(x@ == blink_of(fs));
    Some((x, p))
}

/// Reads a list store from the start of `b`, ignoring the padding after it.
pub fn decode_blink_list(b: &[u8]) -> (r: Result<BlinkList, ErrorCode>)
    ensures
        match r {
            Ok(list) => parse_list(b@) == Some(list@),
            Err(e) => parse_list(b@) is None && e == ErrorCode::CorruptStore,
        },
{
    let count = match read_u32(b, 0) {
        Some(n) => n,
        None => {
            return Err(ErrorCode::CorruptStore);
        },
    };
    let mut blinks: Vec<Blink> = Vec::new();
    let mut p: usize = 4;
    let mut i: u32 = 0;
    assert(blinks@.map_values(|x: Blink| x@) =~= Seq::<BlinkModel>::empty());
    while i < count
        invariant
            i <= count,
            4 <= b@.len(),
            count as nat == u32_at(b@, 0),
            parse_blinks(b@, 4, i as nat) == Some((blinks@.map_values(|x: Blink| x@), p as int)),
        decreases count - i,
    {
        match read_blink(b, p) {
            Some((x, q)) => {
                let ghost old_blinks = blinks@;
                blinks.push(x);
                assert(blinks@.map_values(|y: Blink| y@) =~= old_blinks.map_values(|y: Blink| y@).push(x@));
                p = q;
            },
            None => {
                proof {
                    lemma_parse_blinks_stops(b@, 4, (i + 1) as nat, count as nat);
                }
                return Err(ErrorCode::CorruptStore);
            },
        }
        i = i + 1;
    }
    if p < b.len() && b[p] == 0 {
        Ok(BlinkList { blinks, is_initialized: false })
    } else if p < b.len() && b[p] == 1 {
        Ok(BlinkList { blinks, is_initialized: true })
    } else {
        Err(ErrorCode::CorruptStore)
    }
}

/// Reads a single-record store from the start of `b`, ignoring the padding after it.
pub fn decode_blink_record(b: &[u8]) -> (r: Result<BlinkRecord, ErrorCode>)
    ensures
        match r {
            Ok(rec) => parse_record(b@) == Some(rec@),
            Err(e) => parse_record(b@) is None && e == ErrorCode::CorruptStore,
        },
{
    let flag = if 0 < b.len() && b[0] == 0 {
        false
    } else if 0 < b.len() && b[0] == 1 {
        true
    } else {
        return Err(ErrorCode::CorruptStore);
    };
    match read_blink(b, 1) {
        Some((x, _)) => Ok(BlinkRecord { blink: x, is_initialized: flag }),
        None => Err(ErrorCode::CorruptStore),
    }
}

} // verus!
