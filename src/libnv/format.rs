//! The packed form of a list, as a function on byte sequences.
//!
//! All integers are 64-bit little endian. A list is the byte `MAGIC`, its
//! flag code, its pair count and its pairs. A pair is its type tag, its name
//! as text, then its value. Text and byte buffers are a length and the bytes;
//! arrays are a count and their items. Descriptors cannot be packed.
use vstd::bytes::{spec_u64_from_le_bytes, spec_u64_to_le_bytes};
use vstd::prelude::*;
use vstd::utf8::{decode_utf8, encode_utf8, valid_utf8};

use super::{flag_code, DataModel, ListModel, NvFlag};

verus! {

/// The first byte of every packed list.
pub const MAGIC: u8 = 110;

/// The type tag that a packed pair carries.
pub open spec fn tag_of(d: DataModel) -> u8 {
    match d {
        DataModel::Null => 1,
        DataModel::Bool(_) => 2,
        DataModel::Number(_) => 3,
        DataModel::Str(_) => 4,
        DataModel::List(_) => 5,
        DataModel::Descriptor(_) => 6,
        DataModel::Binary(_) => 7,
        DataModel::BoolArray(_) => 8,
        DataModel::NumberArray(_) => 9,
        DataModel::StrArray(_) => 10,
        DataModel::ListArray(_) => 11,
    }
}

/// The flag set with a given code (codes above 3 are never decoded).
pub open spec fn flag_of(c: u8) -> NvFlag {
    if c == 0 {
        NvFlag::NoFlags
    } else if c == 1 {
        NvFlag::IgnoreCase
    } else if c == 2 {
        NvFlag::NoUnique
    } else {
        NvFlag::Both
    }
}

pub open spec fn enc_u64(n: int) -> Seq<u8> {
    spec_u64_to_le_bytes(n as u64)
}

pub open spec fn enc_bytes(b: Seq<u8>) -> Seq<u8> {
    enc_u64(b.len() as int) + b
}

pub open spec fn enc_text(s: Seq<char>) -> Seq<u8> {
    enc_bytes(encode_utf8(s))
}

pub open spec fn enc_bool(b: bool) -> u8 {
    if b {
        1
    } else {
        0
    }
}

pub open spec fn enc_bools(bs: Seq<bool>) -> Seq<u8> {
    enc_u64(bs.len() as int) + Seq::new(bs.len(), |i: int| enc_bool(bs[i]))
}

/// The first `n` numbers of `ns`, one after the other.
pub open spec fn enc_u64s(ns: Seq<u64>, n: int) -> Seq<u8>
    decreases n,
{
    if n <= 0 || n > ns.len() {
        seq![]
    } else {
        enc_u64s(ns, n - 1) + enc_u64(ns[n - 1] as int)
    }
}

/// The first `n` texts of `ss`, one after the other.
pub open spec fn enc_texts(ss: Seq<Seq<char>>, n: int) -> Seq<u8>
    decreases n,
{
    if n <= 0 || n > ss.len() {
        seq![]
    } else {
        enc_texts(ss, n - 1) + enc_text(ss[n - 1])
    }
}

/// The packed form of a list.
pub open spec fn enc_list(m: ListModel) -> Seq<u8>
    decreases m, 0int,
{
    seq![MAGIC, flag_code(m.flags)] + enc_u64(m.pairs.len() as int) + enc_pairs(
        m.pairs,
        m.pairs.len() as int,
    )
}

/// The first `n` pairs of `ps`, packed one after the other.
pub open spec fn enc_pairs(ps: Seq<(Seq<char>, DataModel)>, n: int) -> Seq<u8>
    decreases ps, n,
{
    if n <= 0 || n > ps.len() {
        seq![]
    } else {
        enc_pairs(ps, n - 1) + seq![tag_of(ps[n - 1].1)] + enc_text(ps[n - 1].0) + enc_data(
            ps[n - 1].1,
        )
    }
}

/// The packed form of a value (without its tag).
pub open spec fn enc_data(d: DataModel) -> Seq<u8>
    decreases d, 0int,
{
    match d {
        DataModel::Null => seq![],
        DataModel::Bool(b) => seq![enc_bool(b)],
        DataModel::Number(n) => enc_u64(n as int),
        DataModel::Str(s) => enc_text(s),
        DataModel::List(l) => enc_list(l),
        DataModel::Descriptor(_) => seq![],
        DataModel::Binary(b) => enc_bytes(b),
        DataModel::BoolArray(bs) => enc_bools(bs),
        DataModel::NumberArray(ns) => enc_u64(ns.len() as int) + enc_u64s(ns, ns.len() as int),
        DataModel::StrArray(ss) => enc_u64(ss.len() as int) + enc_texts(ss, ss.len() as int),
        DataModel::ListArray(ls) => enc_u64(ls.len() as int) + enc_lists(ls, ls.len() as int),
    }
}

/// The first `n` lists of `ls`, packed one after the other.
pub open spec fn enc_lists(ls: Seq<ListModel>, n: int) -> Seq<u8>
    decreases ls, n,
{
    if n <= 0 || n > ls.len() {
        seq![]
    } else {
        enc_lists(ls, n - 1) + enc_list(ls[n - 1])
    }
}

/// Some value anywhere in the list, nested lists included, is a descriptor.
pub open spec fn has_descriptor(m: ListModel) -> bool
    decreases m, 0int,
{
    pairs_have_descriptor(m.pairs, m.pairs.len() as int)
}

pub open spec fn pairs_have_descriptor(ps: Seq<(Seq<char>, DataModel)>, n: int) -> bool
    decreases ps, n,
{
    if n <= 0 || n > ps.len() {
        false
    } else {
        pairs_have_descriptor(ps, n - 1) || data_has_descriptor(ps[n - 1].1)
    }
}

pub open spec fn data_has_descriptor(d: DataModel) -> bool
    decreases d, 0int,
{
    match d {
        DataModel::Descriptor(_) => true,
        DataModel::List(l) => has_descriptor(l),
        DataModel::ListArray(ls) => lists_have_descriptor(ls, ls.len() as int),
        _ => false,
    }
}

pub open spec fn lists_have_descriptor(ls: Seq<ListModel>, n: int) -> bool
    decreases ls, n,
{
    if n <= 0 || n > ls.len() {
        false
    } else {
        lists_have_descriptor(ls, n - 1) || has_descriptor(ls[n - 1])
    }
}

pub open spec fn fits(n: int) -> bool {
    0 <= n <= u64::MAX
}

/// The list packs and unpacks to itself: no descriptor anywhere, no pending
/// error in it or in a nested list, and every length fits in 64 bits.
pub open spec fn wire_list(m: ListModel) -> bool
    decreases m, 0int,
{
    &&& m.error == 0
    &&& fits(m.pairs.len() as int)
    &&& wire_pairs(m.pairs, m.pairs.len() as int)
}

pub open spec fn wire_pairs(ps: Seq<(Seq<char>, DataModel)>, n: int) -> bool
    decreases ps, n,
{
    if n <= 0 || n > ps.len() {
        true
    } else {
        &&& wire_pairs(ps, n - 1)
        &&& fits(encode_utf8(ps[n - 1].0).len() as int)
        &&& wire_data(ps[n - 1].1)
    }
}

pub open spec fn wire_data(d: DataModel) -> bool
    decreases d, 0int,
{
    match d {
        DataModel::Str(s) => fits(encode_utf8(s).len() as int),
        DataModel::List(l) => wire_list(l),
        DataModel::Descriptor(_) => false,
        DataModel::Binary(b) => fits(b.len() as int),
        DataModel::BoolArray(bs) => fits(bs.len() as int),
        DataModel::NumberArray(ns) => fits(ns.len() as int),
        DataModel::StrArray(ss) => fits(ss.len() as int) && forall|i: int|
            0 <= i < ss.len() ==> fits(encode_utf8(#[trigger] ss[i]).len() as int),
        DataModel::ListArray(ls) => fits(ls.len() as int) && wire_lists(ls, ls.len() as int),
        _ => true,
    }
}

pub open spec fn wire_lists(ls: Seq<ListModel>, n: int) -> bool
    decreases ls, n,
{
    if n <= 0 || n > ls.len() {
        true
    } else {
        wire_lists(ls, n - 1) && wire_list(ls[n - 1])
    }
}

pub open spec fn rd_u64(b: Seq<u8>, p: int) -> Option<u64> {
    if 0 <= p && p + 8 <= b.len() {
        Some(spec_u64_from_le_bytes(b.subrange(p, p + 8)))
    } else {
        None
    }
}

pub open spec fn dec_bytes(b: Seq<u8>, p: int) -> Option<(Seq<u8>, int)> {
    match rd_u64(b, p) {
        Some(n) => if p + 8 + n <= b.len() {
            Some((b.subrange(p + 8, p + 8 + n), p + 8 + n))
        } else {
            None
        },
        None => None,
    }
}

pub open spec fn dec_text(b: Seq<u8>, p: int) -> Option<(Seq<char>, int)> {
    match dec_bytes(b, p) {
        Some((x, q)) => if valid_utf8(x) {
            Some((decode_utf8(x), q))
        } else {
            None
        },
        None => None,
    }
}

pub open spec fn dec_bool(c: u8) -> Option<bool> {
    if c == 0 {
        Some(false)
    } else if c == 1 {
        Some(true)
    } else {
        None
    }
}

pub open spec fn dec_bools(b: Seq<u8>, p: int) -> Option<(Seq<bool>, int)> {
    match rd_u64(b, p) {
        Some(n) => if p + 8 + n <= b.len() && forall|i: int|
            p + 8 <= i < p + 8 + n ==> #[trigger] b[i] <= 1 {
            Some((Seq::new(n as nat, |i: int| b[p + 8 + i] == 1), p + 8 + n))
        } else {
            None
        },
        None => None,
    }
}

/// `n` numbers, one after the other, from position `p`.
pub open spec fn dec_u64s(b: Seq<u8>, p: int, n: int) -> Option<(Seq<u64>, int)>
    decreases n,
{
    if n <= 0 {
        Some((seq![], p))
    } else {
        match dec_u64s(b, p, n - 1) {
            Some((xs, q)) => match rd_u64(b, q) {
                Some(x) => Some((xs.push(x), q + 8)),
                None => None,
            },
            None => None,
        }
    }
}

/// `n` texts, one after the other, from position `p`.
pub open spec fn dec_texts(b: Seq<u8>, p: int, n: int) -> Option<(Seq<Seq<char>>, int)>
    decreases n,
{
    if n <= 0 {
        Some((seq![], p))
    } else {
        match dec_texts(b, p, n - 1) {
            Some((xs, q)) => match dec_text(b, q) {
                Some((x, r)) => Some((xs.push(x), r)),
                None => None,
            },
            None => None,
        }
    }
}

/// The list packed at position `p`, and the position after it.
pub open spec fn dec_list(b: Seq<u8>, p: int) -> Option<(ListModel, int)>
    decreases b.len() - p, 0int,
{
    if 0 <= p && p + 10 <= b.len() && b[p] == MAGIC && b[p + 1] <= 3 {
        match rd_u64(b, p + 2) {
            Some(n) => match dec_pairs(b, p + 10, n as int) {
                Some((ps, q)) => Some((ListModel { flags: flag_of(b[p + 1]), error: 0, pairs: ps }, q)),
                None => None,
            },
            None => None,
        }
    } else {
        None
    }
}

/// `n` pairs, one after the other, from position `p`.
pub open spec fn dec_pairs(b: Seq<u8>, p: int, n: int) -> Option<
    (Seq<(Seq<char>, DataModel)>, int),
>
    decreases b.len() - p, n,
{
    if p < 0 || p > b.len() {
        None
    } else if n <= 0 {
        Some((seq![], p))
    } else {
        match dec_pairs(b, p, n - 1) {
            Some((ps, q)) => if p <= q <= b.len() {
                match dec_pair(b, q) {
                    Some((pr, r)) => Some((ps.push(pr), r)),
                    None => None,
                }
            } else {
                None
            },
            None => None,
        }
    }
}

/// The pair packed at position `q`, and the position after it.
pub open spec fn dec_pair(b: Seq<u8>, q: int) -> Option<((Seq<char>, DataModel), int)>
    decreases b.len() - q, 0int,
{
    if 0 <= q < b.len() {
        match dec_text(b, q + 1) {
            Some((name, r)) => if q < r <= b.len() {
                match dec_data(b, r, b[q]) {
                    Some((d, s)) => Some(((name, d), s)),
                    None => None,
                }
            } else {
                None
            },
            None => None,
        }
    } else {
        None
    }
}

/// The value with type tag `tag` packed at position `r`, and the position
/// after it.
pub open spec fn dec_data(b: Seq<u8>, r: int, tag: u8) -> Option<(DataModel, int)>
    decreases b.len() - r, 1int,
{
    if r < 0 || r > b.len() {
        None
    } else if tag == 1 {
        Some((DataModel::Null, r))
    } else if tag == 2 {
        if r < b.len() {
            match dec_bool(b[r]) {
                Some(x) => Some((DataModel::Bool(x), r + 1)),
                None => None,
            }
        } else {
            None
        }
    } else if tag == 3 {
        match rd_u64(b, r) {
            Some(x) => Some((DataModel::Number(x), r + 8)),
            None => None,
        }
    } else if tag == 4 {
        match dec_text(b, r) {
            Some((s, q)) => Some((DataModel::Str(s), q)),
            None => None,
        }
    } else if tag == 5 {
        match dec_list(b, r) {
            Some((l, q)) => Some((DataModel::List(l), q)),
            None => None,
        }
    } else if tag == 7 {
        match dec_bytes(b, r) {
            Some((x, q)) => Some((DataModel::Binary(x), q)),
            None => None,
        }
    } else if tag == 8 {
        match dec_bools(b, r) {
            Some((x, q)) => Some((DataModel::BoolArray(x), q)),
            None => None,
        }
    } else if tag == 9 {
        match rd_u64(b, r) {
            Some(n) => match dec_u64s(b, r + 8, n as int) {
                Some((x, q)) => Some((DataModel::NumberArray(x), q)),
                None => None,
            },
            None => None,
        }
    } else if tag == 10 {
        match rd_u64(b, r) {
            Some(n) => match dec_texts(b, r + 8, n as int) {
                Some((x, q)) => Some((DataModel::StrArray(x), q)),
                None => None,
            },
            None => None,
        }
    } else if tag == 11 {
        if r + 8 <= b.len() {
            match rd_u64(b, r) {
                Some(n) => match dec_lists(b, r + 8, n as int) {
                    Some((x, q)) => Some((DataModel::ListArray(x), q)),
                    None => None,
                },
                None => None,
            }
        } else {
            None
        }
    } else {
        None
    }
}

/// `n` lists, one after the other, from position `p`.
pub open spec fn dec_lists(b: Seq<u8>, p: int, n: int) -> Option<(Seq<ListModel>, int)>
    decreases b.len() - p, n,
{
    if p < 0 || p > b.len() {
        None
    } else if n <= 0 {
        Some((seq![], p))
    } else {
        match dec_lists(b, p, n - 1) {
            Some((ls, q)) => if p <= q <= b.len() {
                match dec_list(b, q) {
                    Some((l, r)) => Some((ls.push(l), r)),
                    None => None,
                }
            } else {
                None
            },
            None => None,
        }
    }
}

/// What unpacking `b` with the flags `flags` gives: the list packed in all of
/// `b`, if `b` is one packed list and it was packed with those flags.
pub open spec fn unpacked(b: Seq<u8>, flags: NvFlag) -> Option<ListModel> {
    match dec_list(b, 0) {
        Some((m, q)) => if q == b.len() && m.flags == flags {
            Some(m)
        } else {
            None
        },
        None => None,
    }
}

/// `b` holds `x` from position `p` on.
pub open spec fn holds_at(b: Seq<u8>, p: int, x: Seq<u8>) -> bool {
    &&& 0 <= p
    &&& p + x.len() <= b.len()
    &&& b.subrange(p, p + x.len()) == x
}

proof fn lemma_split(b: Seq<u8>, p: int, x: Seq<u8>, y: Seq<u8>)
    requires
        holds_at(b, p, x + y),
    ensures
        holds_at(b, p, x),
        holds_at(b, p + x.len(), y),
{
    let whole = b.subrange(p, p + x.len() + y.len());
    assert(whole == x + y);
    assert(b.subrange(p, p + x.len()) =~= whole.subrange(0, x.len() as int));
    assert(whole.subrange(0, x.len() as int) =~= x);
    assert(b.subrange(p + x.len(), p + x.len() + y.len()) =~= whole.subrange(
        x.len() as int,
        whole.len() as int,
    ));
    assert(whole.subrange(x.len() as int, whole.len() as int) =~= y);
}

proof fn lemma_u64(b: Seq<u8>, p: int, n: int)
    requires
        holds_at(b, p, enc_u64(n)),
        fits(n),
    ensures
        enc_u64(n).len() == 8,
        rd_u64(b, p) == Some(n as u64),
{
    vstd::bytes::lemma_auto_spec_u64_to_from_le_bytes();
}

proof fn lemma_bytes(b: Seq<u8>, p: int, x: Seq<u8>)
    requires
        holds_at(b, p, enc_bytes(x)),
        fits(x.len() as int),
    ensures
        enc_bytes(x).len() == 8 + x.len(),
        dec_bytes(b, p) == Some((x, p + enc_bytes(x).len())),
{
    lemma_split(b, p, enc_u64(x.len() as int), x);
    lemma_u64(b, p, x.len() as int);
}

proof fn lemma_text(b: Seq<u8>, p: int, s: Seq<char>)
    requires
        holds_at(b, p, enc_text(s)),
        fits(encode_utf8(s).len() as int),
    ensures
        dec_text(b, p) == Some((s, p + enc_text(s).len())),
{
    broadcast use vstd::utf8::encode_utf8_valid_utf8, vstd::utf8::encode_utf8_decode_utf8;

    lemma_bytes(b, p, encode_utf8(s));
}

proof fn lemma_bools(b: Seq<u8>, p: int, bs: Seq<bool>)
    requires
        holds_at(b, p, enc_bools(bs)),
        fits(bs.len() as int),
    ensures
        dec_bools(b, p) == Some((bs, p + enc_bools(bs).len())),
{
    let body = Seq::new(bs.len(), |i: int| enc_bool(bs[i]));
    lemma_split(b, p, enc_u64(bs.len() as int), body);
    lemma_u64(b, p, bs.len() as int);
    let n = bs.len() as int;
    assert forall|i: int| p + 8 <= i < p + 8 + n implies #[trigger] b[i] <= 1 by {
        assert(b[i] == b.subrange(p + 8, p + 8 + n)[i - p - 8]);
    }
    assert forall|i: int| 0 <= i < n implies (b[p + 8 + i] == 1) == bs[i] by {
        assert(b[p + 8 + i] == b.subrange(p + 8, p + 8 + n)[i]);
    }
    assert(Seq::new(n as nat, |i: int| b[p + 8 + i] == 1) =~= bs);
}

proof fn lemma_u64s(b: Seq<u8>, p: int, ns: Seq<u64>, n: int)
    requires
        0 <= n <= ns.len(),
        holds_at(b, p, enc_u64s(ns, n)),
    ensures
        enc_u64s(ns, n).len() == 8 * n,
        dec_u64s(b, p, n) == Some((ns.take(n), p + 8 * n)),
    decreases n,
{
    if n > 0 {
        let front = enc_u64s(ns, n - 1);
        lemma_split(b, p, front, enc_u64(ns[n - 1] as int));
        lemma_u64s(b, p, ns, n - 1);
        lemma_u64(b, p + 8 * (n - 1), ns[n - 1] as int);
        assert(ns.take(n - 1).push(ns[n - 1]) =~= ns.take(n));
    } else {
        assert(ns.take(0) =~= seq![]);
    }
}

proof fn lemma_texts(b: Seq<u8>, p: int, ss: Seq<Seq<char>>, n: int)
    requires
        0 <= n <= ss.len(),
        forall|i: int| 0 <= i < ss.len() ==> fits(encode_utf8(#[trigger] ss[i]).len() as int),
        holds_at(b, p, enc_texts(ss, n)),
    ensures
        dec_texts(b, p, n) == Some((ss.take(n), p + enc_texts(ss, n).len())),
    decreases n,
{
    if n > 0 {
        let front = enc_texts(ss, n - 1);
        lemma_split(b, p, front, enc_text(ss[n - 1]));
        lemma_texts(b, p, ss, n - 1);
        lemma_text(b, p + front.len(), ss[n - 1]);
        assert(ss.take(n - 1).push(ss[n - 1]) =~= ss.take(n));
    } else {
        assert(ss.take(0) =~= seq![]);
    }
}

proof fn lemma_flag(f: NvFlag)
    ensures
        flag_of(flag_code(f)) == f,
        flag_code(f) <= 3,
{
}

/// Decoding the packed form of a list gives the list back.
pub proof fn lemma_list(m: ListModel, b: Seq<u8>, p: int)
    requires
        wire_list(m),
        holds_at(b, p, enc_list(m)),
    ensures
        dec_list(b, p) == Some((m, p + enc_list(m).len())),
    decreases m, 0int,
{
    let n = m.pairs.len() as int;
    let head = seq![MAGIC, flag_code(m.flags)];
    let body = enc_pairs(m.pairs, n);
    assert(enc_list(m) == head + enc_u64(n) + body);
    lemma_split(b, p, head + enc_u64(n), body);
    lemma_split(b, p, head, enc_u64(n));
    lemma_u64(b, p + 2, n);
    assert(b[p] == b.subrange(p, p + 2)[0]);
    assert(b[p + 1] == b.subrange(p, p + 2)[1]);
    lemma_flag(m.flags);
    lemma_pairs(m.pairs, n, b, p + 10);
    assert(m.pairs.take(n) =~= m.pairs);
}

proof fn lemma_pairs(ps: Seq<(Seq<char>, DataModel)>, n: int, b: Seq<u8>, p: int)
    requires
        0 <= n <= ps.len(),
        wire_pairs(ps, n),
        holds_at(b, p, enc_pairs(ps, n)),
    ensures
        dec_pairs(b, p, n) == Some((ps.take(n), p + enc_pairs(ps, n).len())),
    decreases ps, n,
{
    if n > 0 {
        let front = enc_pairs(ps, n - 1);
        let d = ps[n - 1].1;
        let tag = seq![tag_of(d)];
        let name = enc_text(ps[n - 1].0);
        let q = p + front.len();
        assert(enc_pairs(ps, n) == front + tag + name + enc_data(d));
        lemma_split(b, p, front + tag + name, enc_data(d));
        lemma_split(b, p, front + tag, name);
        lemma_split(b, p, front, tag);
        lemma_pairs(ps, n - 1, b, p);
        assert(b[q] == b.subrange(q, q + 1)[0]);
        lemma_text(b, q + 1, ps[n - 1].0);
        lemma_data(d, b, q + 1 + name.len());
        assert(b[q] == tag_of(d));
        assert(dec_pair(b, q) == Some(((ps[n - 1].0, d), q + 1 + name.len() + enc_data(d).len())));
        assert(dec_pairs(b, p, n - 1) == Some((ps.take(n - 1), q)));
        assert(ps.take(n - 1).push((ps[n - 1].0, d)) =~= ps.take(n));
    } else {
        assert(ps.take(0) =~= seq![]);
    }
}

proof fn lemma_data(d: DataModel, b: Seq<u8>, r: int)
    requires
        wire_data(d),
        holds_at(b, r, enc_data(d)),
    ensures
        dec_data(b, r, tag_of(d)) == Some((d, r + enc_data(d).len())),
    decreases d, 0int,
{
    match d {
        DataModel::Null => {},
        DataModel::Bool(x) => {
            assert(b[r] == b.subrange(r, r + 1)[0]);
        },
        DataModel::Number(x) => {
            lemma_u64(b, r, x as int);
        },
        DataModel::Str(s) => {
            lemma_text(b, r, s);
        },
        DataModel::List(l) => {
            lemma_list(l, b, r);
        },
        DataModel::Descriptor(_) => {},
        DataModel::Binary(x) => {
            lemma_bytes(b, r, x);
        },
        DataModel::BoolArray(bs) => {
            lemma_bools(b, r, bs);
        },
        DataModel::NumberArray(ns) => {
            let n = ns.len() as int;
            lemma_split(b, r, enc_u64(n), enc_u64s(ns, n));
            lemma_u64(b, r, n);
            lemma_u64s(b, r + 8, ns, n);
            assert(ns.take(n) =~= ns);
        },
        DataModel::StrArray(ss) => {
            let n = ss.len() as int;
            lemma_split(b, r, enc_u64(n), enc_texts(ss, n));
            lemma_u64(b, r, n);
            lemma_texts(b, r + 8, ss, n);
            assert(ss.take(n) =~= ss);
        },
        DataModel::ListArray(ls) => {
            let n = ls.len() as int;
            lemma_split(b, r, enc_u64(n), enc_lists(ls, n));
            lemma_u64(b, r, n);
            lemma_lists(ls, n, b, r + 8);
            assert(ls.take(n) =~= ls);
        },
    }
}

proof fn lemma_lists(ls: Seq<ListModel>, n: int, b: Seq<u8>, p: int)
    requires
        0 <= n <= ls.len(),
        wire_lists(ls, n),
        holds_at(b, p, enc_lists(ls, n)),
    ensures
        dec_lists(b, p, n) == Some((ls.take(n), p + enc_lists(ls, n).len())),
    decreases ls, n,
{
    if n > 0 {
        let front = enc_lists(ls, n - 1);
        lemma_split(b, p, front, enc_list(ls[n - 1]));
        lemma_lists(ls, n - 1, b, p);
        lemma_list(ls[n - 1], b, p + front.len());
        assert(ls.take(n - 1).push(ls[n - 1]) =~= ls.take(n));
    } else {
        assert(ls.take(0) =~= seq![]);
    }
}

/// Unpacking the packed form of a list, with the flags it was created with,
/// gives the list back.
pub proof fn lemma_pack_unpack(m: ListModel)
    requires
        wire_list(m),
    ensures
        unpacked(enc_list(m), m.flags) == Some(m),
{
    let b = enc_list(m);
    assert(b.subrange(0, b.len() as int) =~= b);
    lemma_list(m, b, 0);
}

/// Unpacking with flags other than those the list was packed with fails.
pub proof fn lemma_unpack_other_flags(m: ListModel, flags: NvFlag)
    requires
        wire_list(m),
        flags != m.flags,
    ensures
        unpacked(enc_list(m), flags) is None,
{
    let b = enc_list(m);
    assert(b.subrange(0, b.len() as int) =~= b);
    lemma_list(m, b, 0);
}

} // verus!
