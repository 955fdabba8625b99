//! Packing a list into its serialized form and unpacking it again, as
//! `format` describes the bytes.
use vstd::prelude::*;

use super::format::{
    data_has_descriptor, dec_bools, dec_bytes, dec_data, dec_list, dec_lists, dec_pair, dec_pairs,
    dec_text, dec_texts, dec_u64s, enc_bool, enc_bools, enc_data, enc_list, enc_lists, enc_pairs,
    enc_text, enc_texts, enc_u64, enc_u64s, flag_of, has_descriptor, lists_have_descriptor,
    pairs_have_descriptor, rd_u64, tag_of, unpacked, MAGIC,
};
use super::{
    data_model, empty_list_model, list_model, lists_view, strings_view, DataModel, NvData, NvFlag,
    NvList, NvPair,
};
use crate::{NvError, NvResult};

verus! {

fn put_bytes(out: &mut Vec<u8>, b: &[u8])
    ensures
        final(out)@ == old(out)@ + b@,
{
    let ghost pre = out@;
    let mut i: usize = 0;
    while i < b.len()
        invariant
            i <= b@.len(),
            out@ == pre + b@.subrange(0, i as int),
        decreases b@.len() - i,
    {
        out.push(b[i]);
        i = i + 1;
        proof {
            assert(out@ =~= pre + b@.subrange(0, i as int));
        }
    }
    proof {
        assert(b@.subrange(0, b@.len() as int) =~= b@);
    }
}

fn put_u64(out: &mut Vec<u8>, n: u64)
    ensures
        final(out)@ == old(out)@ + enc_u64(n as int),
{
    let b = vstd::bytes::u64_to_le_bytes(n);
    put_bytes(out, b.as_slice());
}

fn put_text(out: &mut Vec<u8>, s: &str)
    ensures
        final(out)@ == old(out)@ + enc_text(s@),
{
    let b = s.as_bytes();
    put_u64(out, b.len() as u64);
    put_bytes(out, b);
    proof {
        assert(final(out)@ =~= old(out)@ + enc_text(s@));
    }
}

fn data_tag(d: &NvData) -> (r: u8)
    ensures
        r == tag_of(data_model(d)),
{
    match d {
        NvData::Null => 1,
        NvData::Bool(_) => 2,
        NvData::Number(_) => 3,
        NvData::String(_) => 4,
        NvData::NvList(_) => 5,
        NvData::Descriptor(_) => 6,
        NvData::Binary(_) => 7,
        NvData::BoolArray(_) => 8,
        NvData::NumberArray(_) => 9,
        NvData::StringArray(_) => 10,
        NvData::NvListArray(_) => 11,
    }
}

fn pack_bools(out: &mut Vec<u8>, v: &Vec<bool>)
    ensures
        final(out)@ == old(out)@ + enc_bools(v@),
{
    put_u64(out, v.len() as u64);
    let ghost pre = out@;
    let mut i: usize = 0;
    while i < v.len()
        invariant
            i <= v@.len(),
            out@ == pre + Seq::new(i as nat, |j: int| enc_bool(v@[j])),
        decreases v@.len() - i,
    {
        out.push(if v[i] { 1 } else { 0 });
        i = i + 1;
        proof {
            assert(out@ =~= pre + Seq::new(i as nat, |j: int| enc_bool(v@[j])));
        }
    }
    proof {
        assert(final(out)@ =~= old(out)@ + enc_bools(v@));
    }
}

fn pack_numbers(out: &mut Vec<u8>, v: &Vec<u64>)
    ensures
        final(out)@ == old(out)@ + enc_u64(v@.len() as int) + enc_u64s(v@, v@.len() as int),
{
    put_u64(out, v.len() as u64);
    let ghost pre = out@;
    let mut i: usize = 0;
    while i < v.len()
        invariant
            i <= v@.len(),
            out@ == pre + enc_u64s(v@, i as int),
        decreases v@.len() - i,
    {
        put_u64(out, v[i]);
        i = i + 1;
        proof {
            assert(out@ =~= pre + enc_u64s(v@, i as int));
        }
    }
}

fn pack_strings(out: &mut Vec<u8>, v: &Vec<String>)
    ensures
        final(out)@ == old(out)@ + enc_u64(v@.len() as int) + enc_texts(
            strings_view(v@),
            v@.len() as int,
        ),
{
    put_u64(out, v.len() as u64);
    let ghost pre = out@;
    let ghost ss = strings_view(v@);
    let mut i: usize = 0;
    while i < v.len()
        invariant
            i <= v@.len(),
            ss == strings_view(v@),
            out@ == pre + enc_texts(ss, i as int),
        decreases v@.len() - i,
    {
        put_text(out, v[i].as_str());
        i = i + 1;
        proof {
            assert(out@ =~= pre + enc_texts(ss, i as int));
        }
    }
}

fn pack_lists(out: &mut Vec<u8>, v: &Vec<NvList>)
    ensures
        final(out)@ == old(out)@ + enc_u64(v@.len() as int) + enc_lists(
            lists_view(v@),
            v@.len() as int,
        ),
    decreases v, 0int,
{
    put_u64(out, v.len() as u64);
    let ghost pre = out@;
    let ghost ls = lists_view(v@);
    let mut i: usize = 0;
    while i < v.len()
        invariant
            i <= v@.len(),
            ls == lists_view(v@),
            out@ == pre + enc_lists(ls, i as int),
        decreases v@.len() - i,
    {
        proof {
            assert(decreases_to!(v => v@[i as int]));
        }
        v[i].pack_into(out);
        i = i + 1;
        proof {
            assert(out@ =~= pre + enc_lists(ls, i as int));
        }
    }
}

fn pack_data(out: &mut Vec<u8>, d: &NvData)
    ensures
        final(out)@ == old(out)@ + enc_data(data_model(d)),
    decreases d, 0int,
{
    match d {
        NvData::Null => {
            proof {
                assert(out@ =~= old(out)@ + enc_data(data_model(d)));
            }
        },
        NvData::Bool(b) => {
            out.push(if *b { 1 } else { 0 });
            proof {
                assert(out@ =~= old(out)@ + enc_data(data_model(d)));
            }
        },
        NvData::Number(n) => put_u64(out, *n),
        NvData::String(s) => put_text(out, s.as_str()),
        NvData::NvList(l) => l.pack_into(out),
        NvData::Descriptor(_) => {
            proof {
                assert(out@ =~= old(out)@ + enc_data(data_model(d)));
            }
        },
        NvData::Binary(v) => {
            put_u64(out, v.len() as u64);
            put_bytes(out, v.as_slice());
            proof {
                assert(out@ =~= old(out)@ + enc_data(data_model(d)));
            }
        },
        NvData::BoolArray(v) => pack_bools(out, v),
        NvData::NumberArray(v) => {
            pack_numbers(out, v);
            proof {
                assert(out@ =~= old(out)@ + enc_data(data_model(d)));
            }
        },
        NvData::StringArray(v) => {
            pack_strings(out, v);
            proof {
                assert(strings_view(v@) =~= Seq::new(
                    v.len() as nat,
                    |i: int| if 0 <= i < v.len() { v@[i]@ } else { Seq::empty() },
                ));
                assert(out@ =~= old(out)@ + enc_data(data_model(d)));
            }
        },
        NvData::NvListArray(v) => {
            pack_lists(out, v);
            proof {
                assert(lists_view(v@) =~= Seq::new(
                    v.len() as nat,
                    |i: int| if 0 <= i < v.len() { list_model(&v@[i]) } else { empty_list_model() },
                ));
                if let DataModel::ListArray(a) = data_model(d) {
                    assert(a =~= lists_view(v@));
                }
                assert(out@ =~= old(out)@ + enc_data(data_model(d)));
            }
        },
    }
}

impl NvList {
    fn pack_into(&self, out: &mut Vec<u8>)
        ensures
            final(out)@ == old(out)@ + enc_list(self@),
        decreases self, 1int,
    {
        proof {
            self.lemma_shape();
        }
        out.push(MAGIC);
        out.push(self.flags.code());
        put_u64(out, self.pairs.len() as u64);
        let ghost pre = out@;
        let ghost ps = self@.pairs;
        let mut i: usize = 0;
        while i < self.pairs.len()
            invariant
                i <= self.pairs@.len(),
                ps == self@.pairs,
                ps.len() == self.pairs@.len(),
                out@ == pre + enc_pairs(ps, i as int),
            decreases self.pairs@.len() - i,
        {
            let p = &self.pairs[i];
            proof {
                self.lemma_pair(i as int);
                assert(decreases_to!(self => self.pairs@[i as int].data));
            }
            out.push(data_tag(&p.data));
            put_text(out, p.name.as_str());
            pack_data(out, &p.data);
            i = i + 1;
            proof {
                assert(out@ =~= pre + enc_pairs(ps, i as int));
            }
        }
        proof {
            assert(out@ =~= old(out)@ + enc_list(self@));
        }
    }
}

fn data_holds_descriptor(d: &NvData) -> (r: bool)
    ensures
        r == data_has_descriptor(data_model(d)),
    decreases d, 0int,
{
    match d {
        NvData::Descriptor(_) => true,
        NvData::NvList(l) => l.holds_descriptor(),
        NvData::NvListArray(v) => {
            let r = lists_hold_descriptor(v);
            proof {
                if let DataModel::ListArray(a) = data_model(d) {
                    assert(a =~= lists_view(v@));
                }
            }
            r
        },
        _ => false,
    }
}

fn lists_hold_descriptor(v: &Vec<NvList>) -> (r: bool)
    ensures
        r == lists_have_descriptor(lists_view(v@), v@.len() as int),
    decreases v, 0int,
{
    let ghost ls = lists_view(v@);
    let mut found = false;
    let mut i: usize = 0;
    while i < v.len()
        invariant
            i <= v@.len(),
            ls == lists_view(v@),
            found == lists_have_descriptor(ls, i as int),
        decreases v@.len() - i,
    {
        proof {
            assert(decreases_to!(v => v@[i as int]));
        }
        let here = v[i].holds_descriptor();
        found = found || here;
        i = i + 1;
    }
    found
}

impl NvList {
    fn holds_descriptor(&self) -> (r: bool)
        ensures
            r == has_descriptor(self@),
        decreases self, 1int,
    {
        proof {
            self.lemma_shape();
        }
        let ghost ps = self@.pairs;
        let mut found = false;
        let mut i: usize = 0;
        while i < self.pairs.len()
            invariant
                i <= self.pairs@.len(),
                ps == self@.pairs,
                ps.len() == self.pairs@.len(),
                found == pairs_have_descriptor(ps, i as int),
            decreases self.pairs@.len() - i,
        {
            proof {
                self.lemma_pair(i as int);
                assert(decreases_to!(self => self.pairs@[i as int].data));
            }
            let here = data_holds_descriptor(&self.pairs[i].data);
            found = found || here;
            i = i + 1;
        }
        found
    }

    /// Pack the list into its serialized form. A list with a pending error
    /// cannot be packed (`NativeError` with that error); neither can one
    /// that holds a descriptor anywhere (`OperationNotSupported`).
    pub fn pack(&self) -> (r: NvResult<PackedNvList>)
        ensures
            self@.error != 0 ==> r == Err::<PackedNvList, NvError>(
                NvError::NativeError(self@.error),
            ),
            self@.error == 0 && has_descriptor(self@) ==> r == Err::<PackedNvList, NvError>(
                NvError::OperationNotSupported,
            ),
            self@.error == 0 && !has_descriptor(self@) ==> (r matches Ok(p) && p@ == enc_list(
                self@,
            )),
    {
        proof {
            self.lemma_shape();
        }
        if self.error != 0 {
            return Err(NvError::NativeError(self.error));
        }
        if self.holds_descriptor() {
            return Err(NvError::OperationNotSupported);
        }
        let mut buf: Vec<u8> = Vec::new();
        self.pack_into(&mut buf);
        proof {
            assert(buf@ =~= enc_list(self@));
        }
        Ok(PackedNvList { buf })
    }
}

/// A list packed into a form suitable for storage or transfer; it owns its
/// buffer.
#[derive(Debug)]
pub struct PackedNvList {
    buf: Vec<u8>,
}

impl View for PackedNvList {
    type V = Seq<u8>;

    closed spec fn view(&self) -> Seq<u8> {
        self.buf@
    }
}

/// Like [`PackedNvList`], but over a buffer that it borrows.
#[derive(Debug)]
pub struct BorrowedPackedNvList<'a> {
    buf: &'a [u8],
}

impl<'a> View for BorrowedPackedNvList<'a> {
    type V = Seq<u8>;

    closed spec fn view(&self) -> Seq<u8> {
        self.buf@
    }
}

/// What unpacking `b` with `flags` returns: the list that `b` holds when it
/// holds exactly one packed list, packed with those flags; else an `Io` error
/// with a positive code.
pub open spec fn unpack_outcome(b: Seq<u8>, flags: NvFlag, r: NvResult<NvList>) -> bool {
    match r {
        Ok(l) => unpacked(b, flags) == Some(l@),
        Err(e) => unpacked(b, flags) is None && (e matches NvError::Io(c) && c > 0),
    }
}

impl PackedNvList {
    /// Take a buffer that holds (or is meant to hold) a packed list.
    pub fn from_vec(buf: Vec<u8>) -> (r: PackedNvList)
        ensures
            r@ == buf@,
    {
        PackedNvList { buf }
    }

    /// The packed bytes.
    pub fn as_bytes(&self) -> (r: &[u8])
        ensures
            r@ == self@,
    {
        self.buf.as_slice()
    }

    /// The size of the packed buffer.
    pub fn len(&self) -> (r: usize)
        ensures
            r == self@.len(),
    {
        self.buf.len()
    }

    /// Unpack the buffer into a list. `flags` must be those the list was
    /// created with.
    pub fn unpack(&self, flags: NvFlag) -> (r: NvResult<NvList>)
        ensures
            unpack_outcome(self@, flags, r),
    {
        unpack_bytes(self.buf.as_slice(), flags)
    }
}

impl<'a> BorrowedPackedNvList<'a> {
    /// Borrow a buffer that holds (or is meant to hold) a packed list.
    pub fn from_raw(buf: &'a [u8]) -> (r: Self)
        ensures
            r@ == buf@,
    {
        BorrowedPackedNvList { buf }
    }

    /// The packed bytes.
    pub fn as_bytes(&self) -> (r: &'a [u8])
        ensures
            r@ == self@,
    {
        self.buf
    }

    /// The size of the packed buffer.
    pub fn len(&self) -> (r: usize)
        ensures
            r == self@.len(),
    {
        self.buf.len()
    }

    /// Unpack the buffer into a list. `flags` must be those the list was
    /// created with.
    pub fn unpack(&self, flags: NvFlag) -> (r: NvResult<NvList>)
        ensures
            unpack_outcome(self@, flags, r),
    {
        unpack_bytes(self.buf, flags)
    }
}

/// Relies on libc::EINVAL: the platform's code for "invalid argument",
/// which is positive.
#[verifier::external_body]
fn code_invalid() -> (r: i32)
    ensures
        r > 0,
{
    libc::EINVAL
}

/// Relies on libc::EILSEQ: the platform's code for "illegal byte
/// sequence", which is positive.
#[verifier::external_body]
fn code_illegal_sequence() -> (r: i32)
    ensures
        r > 0,
{
    libc::EILSEQ
}

/// Relies on std::str::from_utf8: it accepts exactly the valid UTF-8 byte
/// sequences, and the text it gives is their decoding.
#[verifier::external_body]
fn text_from_utf8(b: &[u8]) -> (r: Option<String>)
    ensures
        r is Some <==> vstd::utf8::valid_utf8(b@),
        r matches Some(s) ==> s@ == vstd::utf8::decode_utf8(b@),
{
    match std::str::from_utf8(b) {
        Ok(s) => Some(s.to_string()),
        Err(_) => None,
    }
}

fn read_u64(b: &[u8], p: usize) -> (r: Option<u64>)
    ensures
        r == rd_u64(b@, p as int),
        r is Some ==> p + 8 <= b.len(),
{
    if p <= b.len() && 8 <= b.len() - p {
        let s = vstd::slice::slice_subrange(b, p, p + 8);
        Some(vstd::bytes::u64_from_le_bytes(s))
    } else {
        None
    }
}

/// The end of `n` bytes from `p` on, if they lie within `b`.
fn span_end(b: &[u8], p: usize, n: u64) -> (r: Option<usize>)
    requires
        p <= b@.len(),
    ensures
        match r {
            Some(e) => e == p + n && e <= b@.len(),
            None => p + n > b@.len(),
        },
{
    let avail: usize = b.len() - p;
    if n <= avail as u64 {
        Some(p + n as usize)
    } else {
        None
    }
}

fn read_bytes(b: &[u8], p: usize) -> (r: Option<(Vec<u8>, usize)>)
    ensures
        match r {
            Some((x, q)) => dec_bytes(b@, p as int) == Some((x@, q as int)) && p < q <= b@.len(),
            None => dec_bytes(b@, p as int) is None,
        },
{
    match read_u64(b, p) {
        None => None,
        Some(n) => match span_end(b, p + 8, n) {
            None => None,
            Some(e) => {
                let x = vstd::slice::slice_to_vec(vstd::slice::slice_subrange(b, p + 8, e));
                Some((x, e))
            },
        },
    }
}

fn read_text(b: &[u8], p: usize) -> (r: Option<(String, usize)>)
    ensures
        match r {
            Some((x, q)) => dec_text(b@, p as int) == Some((x@, q as int)) && p < q <= b@.len(),
            None => dec_text(b@, p as int) is None,
        },
{
    match read_u64(b, p) {
        None => None,
        Some(n) => match span_end(b, p + 8, n) {
            None => None,
            Some(e) => match text_from_utf8(vstd::slice::slice_subrange(b, p + 8, e)) {
                Some(s) => Some((s, e)),
                None => None,
            },
        },
    }
}

fn read_bools(b: &[u8], p: usize) -> (r: Option<(Vec<bool>, usize)>)
    ensures
        match r {
            Some((x, q)) => dec_bools(b@, p as int) == Some((x@, q as int)) && p < q <= b@.len(),
            None => dec_bools(b@, p as int) is None,
        },
{
    match read_u64(b, p) {
        None => None,
        Some(n) => match span_end(b, p + 8, n) {
            None => None,
            Some(e) => {
                let mut x: Vec<bool> = Vec::new();
                let mut i: usize = p + 8;
                while i < e
                    invariant
                        p + 8 <= i <= e,
                        e == p + 8 + n,
                        rd_u64(b@, p as int) == Some(n),
                        e <= b@.len(),
                        x@.len() == i - (p + 8),
                        forall|j: int| p + 8 <= j < i ==> #[trigger] b@[j] <= 1,
                        forall|j: int| 0 <= j < x@.len() ==> x@[j] == (b@[p + 8 + j] == 1),
                    decreases e - i,
                {
                    if b[i] > 1 {
                        proof {
                            assert(!(b@[i as int] <= 1));
                            assert(!(forall|j: int|
                                p + 8 <= j < p + 8 + n ==> #[trigger] b@[j] <= 1));
                            assert(rd_u64(b@, p as int) == Some(n));
                            assert(dec_bools(b@, p as int) is None);
                        }
                        return None;
                    }
                    x.push(b[i] == 1);
                    i = i + 1;
                }
                proof {
                    assert(x@ =~= Seq::new(n as nat, |j: int| b@[p + 8 + j] == 1));
                }
                Some((x, e))
            },
        },
    }
}

proof fn lemma_u64s_fail(b: Seq<u8>, p: int, k: int, n: int)
    requires
        0 <= k <= n,
        dec_u64s(b, p, k) is None,
    ensures
        dec_u64s(b, p, n) is None,
    decreases n - k,
{
    if k < n {
        lemma_u64s_fail(b, p, k, n - 1);
    }
}

proof fn lemma_texts_fail(b: Seq<u8>, p: int, k: int, n: int)
    requires
        0 <= k <= n,
        dec_texts(b, p, k) is None,
    ensures
        dec_texts(b, p, n) is None,
    decreases n - k,
{
    if k < n {
        lemma_texts_fail(b, p, k, n - 1);
    }
}

proof fn lemma_pairs_fail(b: Seq<u8>, p: int, k: int, n: int)
    requires
        0 <= k <= n,
        dec_pairs(b, p, k) is None,
    ensures
        dec_pairs(b, p, n) is None,
    decreases n - k,
{
    if k < n {
        lemma_pairs_fail(b, p, k, n - 1);
    }
}

proof fn lemma_lists_fail(b: Seq<u8>, p: int, k: int, n: int)
    requires
        0 <= k <= n,
        dec_lists(b, p, k) is None,
    ensures
        dec_lists(b, p, n) is None,
    decreases n - k,
{
    if k < n {
        lemma_lists_fail(b, p, k, n - 1);
    }
}

fn read_numbers(b: &[u8], p: usize, n: u64) -> (r: Option<(Vec<u64>, usize)>)
    requires
        p <= b@.len(),
    ensures
        match r {
            Some((x, q)) => dec_u64s(b@, p as int, n as int) == Some((x@, q as int)) && p <= q
                <= b@.len(),
            None => dec_u64s(b@, p as int, n as int) is None,
        },
{
    let mut x: Vec<u64> = Vec::new();
    let mut q: usize = p;
    let mut i: u64 = 0;
    while i < n
        invariant
            i <= n,
            p <= q <= b@.len(),
            dec_u64s(b@, p as int, i as int) == Some((x@, q as int)),
        decreases n - i,
    {
        match read_u64(b, q) {
            None => {
                proof {
                    lemma_u64s_fail(b@, p as int, i as int + 1, n as int);
                }
                return None;
            },
            Some(v) => {
                x.push(v);
                q = q + 8;
                i = i + 1;
            },
        }
    }
    Some((x, q))
}

fn read_texts(b: &[u8], p: usize, n: u64) -> (r: Option<(Vec<String>, usize)>)
    requires
        p <= b@.len(),
    ensures
        match r {
            Some((x, q)) => dec_texts(b@, p as int, n as int) == Some((strings_view(x@), q as int))
                && p <= q <= b@.len(),
            None => dec_texts(b@, p as int, n as int) is None,
        },
{
    let mut x: Vec<String> = Vec::new();
    let mut q: usize = p;
    let mut i: u64 = 0;
    proof {
        assert(strings_view(x@) =~= seq![]);
    }
    while i < n
        invariant
            i <= n,
            p <= q <= b@.len(),
            dec_texts(b@, p as int, i as int) == Some((strings_view(x@), q as int)),
        decreases n - i,
    {
        match read_text(b, q) {
            None => {
                proof {
                    lemma_texts_fail(b@, p as int, i as int + 1, n as int);
                }
                return None;
            },
            Some((s, e)) => {
                let ghost before = x@;
                x.push(s);
                proof {
                    assert(strings_view(x@) =~= strings_view(before).push(s@));
                }
                q = e;
                i = i + 1;
            },
        }
    }
    Some((x, q))
}

/// The models of a sequence of pairs.
spec fn pairs_model(v: Seq<NvPair>) -> Seq<(Seq<char>, DataModel)> {
    Seq::new(v.len(), |i: int| (v[i].name@, data_model(&v[i].data)))
}

fn flag_from_byte(c: u8) -> (r: NvFlag)
    requires
        c <= 3,
    ensures
        r == flag_of(c),
{
    if c == 0 {
        NvFlag::NoFlags
    } else if c == 1 {
        NvFlag::IgnoreCase
    } else if c == 2 {
        NvFlag::NoUnique
    } else {
        NvFlag::Both
    }
}

fn read_list(b: &[u8], p: usize) -> (r: Option<(NvList, usize)>)
    ensures
        match r {
            Some((l, q)) => dec_list(b@, p as int) == Some((l@, q as int)) && p < q <= b@.len(),
            None => dec_list(b@, p as int) is None,
        },
    decreases b@.len() - p, 0int,
{
    if p <= b.len() && 10 <= b.len() - p && b[p] == MAGIC && b[p + 1] <= 3 {
        match read_u64(b, p + 2) {
            None => None,
            Some(n) => match read_pairs(b, p + 10, n) {
                None => None,
                Some((pairs, q)) => {
                    let l = NvList { flags: flag_from_byte(b[p + 1]), error: 0, pairs };
                    proof {
                        assert(l@.pairs =~= pairs_model(pairs@));
                    }
                    Some((l, q))
                },
            },
        }
    } else {
        None
    }
}

fn read_pairs(b: &[u8], p: usize, n: u64) -> (r: Option<(Vec<NvPair>, usize)>)
    requires
        p <= b@.len(),
    ensures
        match r {
            Some((x, q)) => dec_pairs(b@, p as int, n as int) == Some((pairs_model(x@), q as int))
                && p <= q <= b@.len(),
            None => dec_pairs(b@, p as int, n as int) is None,
        },
    decreases b@.len() - p, n as int,
{
    let mut x: Vec<NvPair> = Vec::new();
    let mut q: usize = p;
    let mut i: u64 = 0;
    proof {
        assert(pairs_model(x@) =~= seq![]);
    }
    while i < n
        invariant
            i <= n,
            p <= q <= b@.len(),
            dec_pairs(b@, p as int, i as int) == Some((pairs_model(x@), q as int)),
        decreases n - i,
    {
        match read_pair(b, q) {
            None => {
                proof {
                    lemma_pairs_fail(b@, p as int, i as int + 1, n as int);
                }
                return None;
            },
            Some((pr, e)) => {
                let ghost before = x@;
                let ghost m = (pr.name@, data_model(&pr.data));
                x.push(pr);
                proof {
                    assert(pairs_model(x@) =~= pairs_model(before).push(m));
                }
                q = e;
                i = i + 1;
            },
        }
    }
    Some((x, q))
}

fn read_pair(b: &[u8], q: usize) -> (r: Option<(NvPair, usize)>)
    ensures
        match r {
            Some((pr, s)) => dec_pair(b@, q as int) == Some(
                ((pr.name@, data_model(&pr.data)), s as int),
            ) && q < s <= b@.len(),
            None => dec_pair(b@, q as int) is None,
        },
    decreases b@.len() - q, 0int,
{
    if q < b.len() {
        match read_text(b, q + 1) {
            None => None,
            Some((name, r)) => {
                if q < r && r <= b.len() {
                    match read_data(b, r, b[q]) {
                        None => None,
                        Some((data, s)) => Some((NvPair { name, data }, s)),
                    }
                } else {
                    None
                }
            },
        }
    } else {
        None
    }
}

fn read_data(b: &[u8], r: usize, tag: u8) -> (res: Option<(NvData, usize)>)
    ensures
        match res {
            Some((d, q)) => dec_data(b@, r as int, tag) == Some((data_model(&d), q as int)) && r <= q
                <= b@.len(),
            None => dec_data(b@, r as int, tag) is None,
        },
    decreases b@.len() - r, 1int,
{
    if r > b.len() {
        None
    } else if tag == 1 {
        Some((NvData::Null, r))
    } else if tag == 2 {
        if r < b.len() {
            if b[r] == 0 {
                Some((NvData::Bool(false), r + 1))
            } else if b[r] == 1 {
                Some((NvData::Bool(true), r + 1))
            } else {
                None
            }
        } else {
            None
        }
    } else if tag == 3 {
        match read_u64(b, r) {
            Some(x) => Some((NvData::Number(x), r + 8)),
            None => None,
        }
    } else if tag == 4 {
        match read_text(b, r) {
            Some((s, q)) => Some((NvData::String(s), q)),
            None => None,
        }
    } else if tag == 5 {
        match read_list(b, r) {
            Some((l, q)) => Some((NvData::NvList(l), q)),
            None => None,
        }
    } else if tag == 7 {
        match read_bytes(b, r) {
            Some((x, q)) => Some((NvData::Binary(x), q)),
            None => None,
        }
    } else if tag == 8 {
        match read_bools(b, r) {
            Some((x, q)) => Some((NvData::BoolArray(x), q)),
            None => None,
        }
    } else if tag == 9 {
        match read_u64(b, r) {
            Some(n) => match read_numbers(b, r + 8, n) {
                Some((x, q)) => Some((NvData::NumberArray(x), q)),
                None => None,
            },
            None => None,
        }
    } else if tag == 10 {
        match read_u64(b, r) {
            Some(n) => match read_texts(b, r + 8, n) {
                Some((x, q)) => {
                    let d = NvData::StringArray(x);
                    proof {
                        if let DataModel::StrArray(a) = data_model(&d) {
                            assert(a =~= strings_view(x@));
                        }
                    }
                    Some((d, q))
                },
                None => None,
            },
            None => None,
        }
    } else if tag == 11 {
        if 8 <= b.len() - r {
            match read_u64(b, r) {
                Some(n) => match read_lists(b, r + 8, n) {
                    Some((x, q)) => {
                        let d = NvData::NvListArray(x);
                        proof {
                            if let DataModel::ListArray(a) = data_model(&d) {
                                assert(a =~= lists_view(x@));
                            }
                        }
                        Some((d, q))
                    },
                    None => None,
                },
                None => None,
            }
        } else {
            None
        }
    } else {
        None
    }
}

fn read_lists(b: &[u8], p: usize, n: u64) -> (r: Option<(Vec<NvList>, usize)>)
    requires
        p <= b@.len(),
    ensures
        match r {
            Some((x, q)) => dec_lists(b@, p as int, n as int) == Some((lists_view(x@), q as int))
                && p <= q <= b@.len(),
            None => dec_lists(b@, p as int, n as int) is None,
        },
    decreases b@.len() - p, n as int,
{
    let mut x: Vec<NvList> = Vec::new();
    let mut q: usize = p;
    let mut i: u64 = 0;
    proof {
        assert(lists_view(x@) =~= seq![]);
    }
    while i < n
        invariant
            i <= n,
            p <= q <= b@.len(),
            dec_lists(b@, p as int, i as int) == Some((lists_view(x@), q as int)),
        decreases n - i,
    {
        match read_list(b, q) {
            None => {
                proof {
                    lemma_lists_fail(b@, p as int, i as int + 1, n as int);
                }
                return None;
            },
            Some((l, e)) => {
                let ghost before = x@;
                x.push(l);
                proof {
                    assert(lists_view(x@) =~= lists_view(before).push(l@));
                }
                q = e;
                i = i + 1;
            },
        }
    }
    Some((x, q))
}

fn unpack_bytes(b: &[u8], flags: NvFlag) -> (r: NvResult<NvList>)
    ensures
        unpack_outcome(b@, flags, r),
{
    match read_list(b, 0) {
        None => Err(NvError::Io(code_invalid())),
        Some((l, q)) => {
            if q != b.len() {
                Err(NvError::Io(code_invalid()))
            } else if l.flags() != flags {
                Err(NvError::Io(code_illegal_sequence()))
            } else {
                Ok(l)
            }
        },
    }
}

} // verus!
