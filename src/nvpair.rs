//! Name/value lists in the manner of the Solaris nvpair library.
//!
//! A list keeps its pairs in insertion order. Its flags decide what an
//! insertion replaces: with [`NvFlag::UniqueName`], every earlier pair of the
//! same name; with [`NvFlag::UniqueNameType`], every earlier pair of the same
//! name and type; with [`NvFlag::NoFlags`], nothing, and then lookups by name
//! are not supported at all.
use std::collections::HashMap;
use vstd::prelude::*;

use crate::{check_text, text_result, valid_text, NvError, NvResult};

verus! {

/// How a list copies values in; kept for callers that choose an encoding.
#[derive(Clone, Copy, Debug, PartialEq, Eq, Structural)]
pub enum NvEncoding {
    /// A basic copy on insertion.
    Native,
    /// An XDR copy, suitable for sending to a remote host.
    Xdr,
}

/// Options given when a list is created.
#[derive(Clone, Copy, Debug, PartialEq, Eq, Structural)]
pub enum NvFlag {
    /// Names may repeat; lookups by name are not supported.
    NoFlags,
    /// Inserting a name first removes every pair of that name.
    UniqueName,
    /// Inserting a name first removes every pair of that name and type.
    UniqueNameType,
}

/// The value of one pair, as a mathematical object.
pub enum DataModel {
    Bool(bool),
    Int8(i8),
    Uint8(u8),
    Int16(i16),
    Uint16(u16),
    Int32(i32),
    Uint32(u32),
    Int64(i64),
    Uint64(u64),
    Str(Seq<char>),
    Int8Array(Seq<i8>),
    Uint8Array(Seq<u8>),
    Int16Array(Seq<i16>),
    Uint16Array(Seq<u16>),
    Int32Array(Seq<i32>),
    Uint32Array(Seq<u32>),
    Int64Array(Seq<i64>),
    Uint64Array(Seq<u64>),
}

/// A number for each kind of value; two values have the same type exactly
/// when their kinds agree.
pub open spec fn kind_of(d: DataModel) -> int {
    match d {
        DataModel::Bool(_) => 0,
        DataModel::Int8(_) => 1,
        DataModel::Uint8(_) => 2,
        DataModel::Int16(_) => 3,
        DataModel::Uint16(_) => 4,
        DataModel::Int32(_) => 5,
        DataModel::Uint32(_) => 6,
        DataModel::Int64(_) => 7,
        DataModel::Uint64(_) => 8,
        DataModel::Str(_) => 9,
        DataModel::Int8Array(_) => 10,
        DataModel::Uint8Array(_) => 11,
        DataModel::Int16Array(_) => 12,
        DataModel::Uint16Array(_) => 13,
        DataModel::Int32Array(_) => 14,
        DataModel::Uint32Array(_) => 15,
        DataModel::Int64Array(_) => 16,
        DataModel::Uint64Array(_) => 17,
    }
}

/// A list as a mathematical object: its flags and its pairs in order.
pub struct ListModel {
    pub flags: NvFlag,
    pub pairs: Seq<(Seq<char>, DataModel)>,
}

/// Pair `p` stays when `(name, d)` is inserted into a list with `flags`.
pub open spec fn stays(flags: NvFlag, name: Seq<char>, d: DataModel, p: (Seq<char>, DataModel)) -> bool {
    match flags {
        NvFlag::NoFlags => true,
        NvFlag::UniqueName => p.0 != name,
        NvFlag::UniqueNameType => !(p.0 == name && kind_of(p.1) == kind_of(d)),
    }
}

impl ListModel {
    /// Pair `i` has name `name` and kind `kind`.
    pub open spec fn matches_at(self, name: Seq<char>, kind: int, i: int) -> bool {
        &&& 0 <= i < self.pairs.len()
        &&& self.pairs[i].0 == name
        &&& kind_of(self.pairs[i].1) == kind
    }

    /// Pair `i` is the first with name `name` and kind `kind`.
    pub open spec fn first_at(self, name: Seq<char>, kind: int, i: int) -> bool {
        &&& self.matches_at(name, kind, i)
        &&& forall|j: int| 0 <= j < i ==> !self.matches_at(name, kind, j)
    }

    /// The value of the first pair with name `name` and kind `kind`.
    pub open spec fn lookup(self, name: Seq<char>, kind: int) -> Option<DataModel> {
        if exists|i: int| self.first_at(name, kind, i) {
            Some(self.pairs[choose|i: int| self.first_at(name, kind, i)].1)
        } else {
            None
        }
    }

    /// Some pair has name `name`.
    pub open spec fn has_name(self, name: Seq<char>) -> bool {
        exists|i: int| 0 <= i < self.pairs.len() && self.pairs[i].0 == name
    }

    /// The list after `(name, d)` is inserted: the pairs that stay, then the
    /// new pair.
    pub open spec fn inserted(self, name: Seq<char>, d: DataModel) -> ListModel {
        ListModel {
            pairs: self.pairs.filter(|p: (Seq<char>, DataModel)| stays(self.flags, name, d, p)).push(
                (name, d),
            ),
            ..self
        }
    }
}

/// What an insertion does: a name or string that is not valid fails with
/// `InvalidString` and changes nothing; otherwise the pair goes in.
pub open spec fn insert_outcome(
    old: ListModel,
    new: ListModel,
    name: Seq<char>,
    check: NvResult<()>,
    d: DataModel,
    r: NvResult<()>,
) -> bool {
    if !valid_text(name) {
        new == old && r == text_result(name)
    } else if check is Err {
        new == old && r == check
    } else {
        new == old.inserted(name, d) && r is Ok
    }
}

/// What a lookup of kind `kind` under `name` returns: the name's
/// `InvalidString` error; `OperationNotSupported` on a list whose names need
/// not be unique; the first value of that name and kind; else `NotFound`.
pub open spec fn get_outcome<T>(
    m: ListModel,
    name: Seq<char>,
    kind: int,
    r: NvResult<T>,
    model: spec_fn(T) -> DataModel,
) -> bool {
    if !valid_text(name) {
        r matches Err(e) && text_result(name) == Err::<(), NvError>(e)
    } else if m.flags is NoFlags {
        r matches Err(e) && e == NvError::OperationNotSupported
    } else {
        match m.lookup(name, kind) {
            Some(d) => r matches Ok(v) && model(v) == d,
            None => r matches Err(e) && e == NvError::NotFound,
        }
    }
}

/// A value read back from a pair.
#[derive(Debug, Clone, PartialEq, Eq)]
pub enum Value {
    /// A type that is not decoded.
    Unknown,
    Bool(bool),
    Int8(i8),
    Uint8(u8),
    Int16(i16),
    Uint16(u16),
    Int32(i32),
    Uint32(u32),
    Int64(i64),
    Uint64(u64),
    String(String),
}

/// `v` is what reading a pair holding `d` gives: the value itself, or
/// `Unknown` for an array.
pub open spec fn decodes_to(d: DataModel, v: Value) -> bool {
    match d {
        DataModel::Bool(x) => v == Value::Bool(x),
        DataModel::Int8(x) => v == Value::Int8(x),
        DataModel::Uint8(x) => v == Value::Uint8(x),
        DataModel::Int16(x) => v == Value::Int16(x),
        DataModel::Uint16(x) => v == Value::Uint16(x),
        DataModel::Int32(x) => v == Value::Int32(x),
        DataModel::Uint32(x) => v == Value::Uint32(x),
        DataModel::Int64(x) => v == Value::Int64(x),
        DataModel::Uint64(x) => v == Value::Uint64(x),
        DataModel::Str(s) => v matches Value::String(t) && t@ == s,
        _ => v is Unknown,
    }
}

impl Value {
    /// The `bool` held, or `OperationNotSupported` for another kind.
    pub fn as_bool(&self) -> (r: NvResult<bool>)
        ensures
            match self {
                Value::Bool(b) => r == Ok::<bool, NvError>(*b),
                _ => r == Err::<bool, NvError>(NvError::OperationNotSupported),
            },
    {
        if let Value::Bool(val) = self {
            Ok(*val)
        } else {
            Err(NvError::OperationNotSupported)
        }
    }

    /// The `i8` held, or `OperationNotSupported` for another kind.
    pub fn as_i8(&self) -> (r: NvResult<i8>)
        ensures
            match self {
                Value::Int8(b) => r == Ok::<i8, NvError>(*b),
                _ => r == Err::<i8, NvError>(NvError::OperationNotSupported),
            },
    {
        if let Value::Int8(val) = self {
            Ok(*val)
        } else {
            Err(NvError::OperationNotSupported)
        }
    }

    /// The `u8` held, or `OperationNotSupported` for another kind.
    pub fn as_u8(&self) -> (r: NvResult<u8>)
        ensures
            match self {
                Value::Uint8(b) => r == Ok::<u8, NvError>(*b),
                _ => r == Err::<u8, NvError>(NvError::OperationNotSupported),
            },
    {
        if let Value::Uint8(val) = self {
            Ok(*val)
        } else {
            Err(NvError::OperationNotSupported)
        }
    }
}

impl From<i8> for Value {
    fn from(src: i8) -> (r: Value)
        ensures
            r == Value::Int8(src),
    {
        Value::Int8(src)
    }
}

impl vstd::std_specs::convert::FromSpecImpl<i8> for Value {
    open spec fn obeys_from_spec() -> bool {
        true
    }

    open spec fn from_spec(src: i8) -> Value {
        Value::Int8(src)
    }
}

impl From<u8> for Value {
    fn from(src: u8) -> (r: Value)
        ensures
            r == Value::Uint8(src),
    {
        Value::Uint8(src)
    }
}

impl vstd::std_specs::convert::FromSpecImpl<u8> for Value {
    open spec fn obeys_from_spec() -> bool {
        true
    }

    open spec fn from_spec(src: u8) -> Value {
        Value::Uint8(src)
    }
}

impl From<i16> for Value {
    fn from(src: i16) -> (r: Value)
        ensures
            r == Value::Int16(src),
    {
        Value::Int16(src)
    }
}

impl vstd::std_specs::convert::FromSpecImpl<i16> for Value {
    open spec fn obeys_from_spec() -> bool {
        true
    }

    open spec fn from_spec(src: i16) -> Value {
        Value::Int16(src)
    }
}

impl From<u16> for Value {
    fn from(src: u16) -> (r: Value)
        ensures
            r == Value::Uint16(src),
    {
        Value::Uint16(src)
    }
}

impl vstd::std_specs::convert::FromSpecImpl<u16> for Value {
    open spec fn obeys_from_spec() -> bool {
        true
    }

    open spec fn from_spec(src: u16) -> Value {
        Value::Uint16(src)
    }
}

impl From<i32> for Value {
    fn from(src: i32) -> (r: Value)
        ensures
            r == Value::Int32(src),
    {
        Value::Int32(src)
    }
}

impl vstd::std_specs::convert::FromSpecImpl<i32> for Value {
    open spec fn obeys_from_spec() -> bool {
        true
    }

    open spec fn from_spec(src: i32) -> Value {
        Value::Int32(src)
    }
}

impl From<u32> for Value {
    fn from(src: u32) -> (r: Value)
        ensures
            r == Value::Uint32(src),
    {
        Value::Uint32(src)
    }
}

impl vstd::std_specs::convert::FromSpecImpl<u32> for Value {
    open spec fn obeys_from_spec() -> bool {
        true
    }

    open spec fn from_spec(src: u32) -> Value {
        Value::Uint32(src)
    }
}

impl From<i64> for Value {
    fn from(src: i64) -> (r: Value)
        ensures
            r == Value::Int64(src),
    {
        Value::Int64(src)
    }
}

impl vstd::std_specs::convert::FromSpecImpl<i64> for Value {
    open spec fn obeys_from_spec() -> bool {
        true
    }

    open spec fn from_spec(src: i64) -> Value {
        Value::Int64(src)
    }
}

impl From<u64> for Value {
    fn from(src: u64) -> (r: Value)
        ensures
            r == Value::Uint64(src),
    {
        Value::Uint64(src)
    }
}

impl vstd::std_specs::convert::FromSpecImpl<u64> for Value {
    open spec fn obeys_from_spec() -> bool {
        true
    }

    open spec fn from_spec(src: u64) -> Value {
        Value::Uint64(src)
    }
}

impl From<String> for Value {
    fn from(src: String) -> (r: Value)
        ensures
            r == Value::String(src),
    {
        Value::String(src)
    }
}

impl vstd::std_specs::convert::FromSpecImpl<String> for Value {
    open spec fn obeys_from_spec() -> bool {
        true
    }

    open spec fn from_spec(src: String) -> Value {
        Value::String(src)
    }
}

#[derive(Debug)]
enum NvData {
    Bool(bool),
    Int8(i8),
    Uint8(u8),
    Int16(i16),
    Uint16(u16),
    Int32(i32),
    Uint32(u32),
    Int64(i64),
    Uint64(u64),
    String(String),
    Int8Array(Vec<i8>),
    Uint8Array(Vec<u8>),
    Int16Array(Vec<i16>),
    Uint16Array(Vec<u16>),
    Int32Array(Vec<i32>),
    Uint32Array(Vec<u32>),
    Int64Array(Vec<i64>),
    Uint64Array(Vec<u64>),
}

#[derive(Debug)]
struct NvPair {
    name: String,
    data: NvData,
}

/// A list of name/value pairs.
#[derive(Debug)]
pub struct NvList {
    flags: NvFlag,
    pairs: Vec<NvPair>,
}

spec fn data_model(d: &NvData) -> DataModel {
    match d {
        NvData::Bool(x) => DataModel::Bool(*x),
        NvData::Int8(x) => DataModel::Int8(*x),
        NvData::Uint8(x) => DataModel::Uint8(*x),
        NvData::Int16(x) => DataModel::Int16(*x),
        NvData::Uint16(x) => DataModel::Uint16(*x),
        NvData::Int32(x) => DataModel::Int32(*x),
        NvData::Uint32(x) => DataModel::Uint32(*x),
        NvData::Int64(x) => DataModel::Int64(*x),
        NvData::Uint64(x) => DataModel::Uint64(*x),
        NvData::String(s) => DataModel::Str(s@),
        NvData::Int8Array(x) => DataModel::Int8Array(x@),
        NvData::Uint8Array(x) => DataModel::Uint8Array(x@),
        NvData::Int16Array(x) => DataModel::Int16Array(x@),
        NvData::Uint16Array(x) => DataModel::Uint16Array(x@),
        NvData::Int32Array(x) => DataModel::Int32Array(x@),
        NvData::Uint32Array(x) => DataModel::Uint32Array(x@),
        NvData::Int64Array(x) => DataModel::Int64Array(x@),
        NvData::Uint64Array(x) => DataModel::Uint64Array(x@),
    }
}

spec fn pair_model(p: &NvPair) -> (Seq<char>, DataModel) {
    (p.name@, data_model(&p.data))
}

spec fn pairs_model(v: Seq<NvPair>) -> Seq<(Seq<char>, DataModel)> {
    Seq::new(v.len(), |i: int| pair_model(&v[i]))
}

impl View for NvList {
    type V = ListModel;

    closed spec fn view(&self) -> ListModel {
        ListModel { flags: self.flags, pairs: pairs_model(self.pairs@) }
    }
}

fn data_kind(d: &NvData) -> (r: u8)
    ensures
        r as int == kind_of(data_model(d)),
{
    match d {
        NvData::Bool(_) => 0,
        NvData::Int8(_) => 1,
        NvData::Uint8(_) => 2,
        NvData::Int16(_) => 3,
        NvData::Uint16(_) => 4,
        NvData::Int32(_) => 5,
        NvData::Uint32(_) => 6,
        NvData::Int64(_) => 7,
        NvData::Uint64(_) => 8,
        NvData::String(_) => 9,
        NvData::Int8Array(_) => 10,
        NvData::Uint8Array(_) => 11,
        NvData::Int16Array(_) => 12,
        NvData::Uint16Array(_) => 13,
        NvData::Int32Array(_) => 14,
        NvData::Uint32Array(_) => 15,
        NvData::Int64Array(_) => 16,
        NvData::Uint64Array(_) => 17,
    }
}

fn decode(d: &NvData) -> (r: Value)
    ensures
        decodes_to(data_model(d), r),
{
    match d {
        NvData::Bool(x) => Value::Bool(*x),
        NvData::Int8(x) => Value::Int8(*x),
        NvData::Uint8(x) => Value::Uint8(*x),
        NvData::Int16(x) => Value::Int16(*x),
        NvData::Uint16(x) => Value::Uint16(*x),
        NvData::Int32(x) => Value::Int32(*x),
        NvData::Uint32(x) => Value::Uint32(*x),
        NvData::Int64(x) => Value::Int64(*x),
        NvData::Uint64(x) => Value::Uint64(*x),
        NvData::String(s) => Value::String(s.clone()),
        _ => Value::Unknown,
    }
}

proof fn lemma_filter_keeps_all(s: Seq<(Seq<char>, DataModel)>, pred: spec_fn((Seq<char>, DataModel)) -> bool)
    requires
        forall|j: int| 0 <= j < s.len() ==> pred(#[trigger] s[j]),
    ensures
        s.filter(pred) == s,
    decreases s.len(),
{
    reveal(Seq::filter);
    if s.len() > 0 {
        let t = s.drop_last();
        assert forall|j: int| 0 <= j < t.len() implies pred(#[trigger] t[j]) by {
            assert(t[j] == s[j]);
        }
        lemma_filter_keeps_all(t, pred);
        assert(pred(s[s.len() - 1]));
        assert(s.filter(pred) == t.filter(pred).push(s.last()));
        assert(t.push(s.last()) =~= s);
    }
}

impl NvList {
    /// Create a new, empty list with the given options.
    pub fn new(flags: NvFlag) -> (r: NvResult<NvList>)
        ensures
            r matches Ok(l) && l@ == (ListModel { flags, pairs: Seq::empty() }),
    {
        let l = NvList { flags, pairs: Vec::new() };
        proof {
            assert(l@.pairs =~= Seq::empty());
        }
        Ok(l)
    }

    /// Whether the list holds no pair.
    pub fn is_empty(&self) -> (r: bool)
        ensures
            r == (self@.pairs.len() == 0),
    {
        self.pairs.len() == 0
    }

    /// Whether a pair of the given name exists, of any type.
    pub fn contains_key(&self, name: &str) -> (r: NvResult<bool>)
        ensures
            match r {
                Ok(b) => valid_text(name@) && b == self@.has_name(name@),
                Err(e) => !valid_text(name@) && text_result(name@) == Err::<(), NvError>(e),
            },
    {
        match check_text(name) {
            Ok(()) => {},
            Err(e) => return Err(e),
        }
        let key = name.to_owned();
        let mut i: usize = 0;
        while i < self.pairs.len()
            invariant
                i <= self.pairs@.len(),
                key@ == name@,
                valid_text(name@),
                forall|j: int| 0 <= j < i ==> self@.pairs[j].0 != name@,
            decreases self.pairs@.len() - i,
        {
            if self.pairs[i].name == key {
                proof {
                    assert(self@.pairs.len() == self.pairs@.len());
                    assert(self@.pairs[i as int].0 == name@);
                    assert(self@.has_name(name@));
                }
                return Ok(true);
            }
            i = i + 1;
        }
        Ok(false)
    }

    /// Add any supported value: a shorthand for the typed insertions.
    pub fn insert<T: NvTypeOp>(&mut self, name: &str, value: T) -> (r: NvResult<()>)
        ensures
            insert_outcome(old(self)@, final(self)@, name@, value.nv_check(), value.nv_model(), r),
    {
        value.add_to_list(self, name)
    }

    /// An iterator over the pairs, in order.
    pub fn iter(&self) -> (r: NvListIter<'_>)
        ensures
            r.source() == self@,
            r.position() == 0,
    {
        NvListIter { list: self, position: 0 }
    }

    fn find(&self, name: &str, kind: u8) -> (r: Option<usize>)
        ensures
            match r {
                Some(i) => self@.first_at(name@, kind as int, i as int) && i < self.pairs@.len()
                    && self@.lookup(name@, kind as int) == Some(data_model(&self.pairs@[i as int].data)),
                None => self@.lookup(name@, kind as int) is None,
            },
    {
        let key = name.to_owned();
        let mut i: usize = 0;
        while i < self.pairs.len()
            invariant
                i <= self.pairs@.len(),
                key@ == name@,
                forall|j: int| 0 <= j < i ==> !self@.matches_at(name@, kind as int, j),
            decreases self.pairs@.len() - i,
        {
            if self.pairs[i].name == key && data_kind(&self.pairs[i].data) == kind {
                proof {
                    let m = self@;
                    let k = choose|k: int| m.first_at(name@, kind as int, k);
                    assert(m.first_at(name@, kind as int, i as int));
                    if k < i {
                        assert(!m.matches_at(name@, kind as int, k));
                    } else if k > i {
                        assert(!m.matches_at(name@, kind as int, i as int));
                    }
                }
                return Some(i);
            }
            i = i + 1;
        }
        None
    }

    fn locate(&self, name: &str, kind: u8) -> (r: NvResult<usize>)
        ensures
            match r {
                Ok(i) => valid_text(name@) && !(self@.flags is NoFlags) && i < self.pairs@.len()
                    && self@.lookup(name@, kind as int) == Some(data_model(&self.pairs@[i as int].data)),
                Err(e) => get_outcome(self@, name@, kind as int, Err::<(), NvError>(e), |v: ()| DataModel::Bool(true)),
            },
    {
        match check_text(name) {
            Ok(()) => {},
            Err(e) => return Err(e),
        }
        if matches!(self.flags, NvFlag::NoFlags) {
            return Err(NvError::OperationNotSupported);
        }
        match self.find(name, kind) {
            Some(i) => Ok(i),
            None => Err(NvError::NotFound),
        }
    }

    fn add_data(&mut self, name: &str, data: NvData) -> (r: NvResult<()>)
        ensures
            final(self)@ == old(self)@.inserted(name@, data_model(&data)),
            r is Ok,
    {
        let ghost d = data_model(&data);
        let ghost flags = self.flags;
        let ghost orig = old(self)@.pairs;
        let ghost pred = |p: (Seq<char>, DataModel)| stays(flags, name@, d, p);
        let key = name.to_owned();
        let kind = data_kind(&data);
        if !matches!(self.flags, NvFlag::NoFlags) {
            let mut rest: Vec<NvPair> = Vec::new();
            std::mem::swap(&mut self.pairs, &mut rest);
            let mut i: usize = 0;
            let n = rest.len();
            proof {
                assert(pairs_model(self.pairs@) =~= orig.take(0).filter(pred));
                assert(pairs_model(rest@) =~= orig);
            }
            while i < n
                invariant
                    n == orig.len(),
                    i <= n,
                    self.flags == flags,
                    !(flags is NoFlags),
                    pred == (|p: (Seq<char>, DataModel)| stays(flags, name@, d, p)),
                    key@ == name@,
                    kind as int == kind_of(d),
                    pairs_model(rest@) == orig.skip(i as int),
                    pairs_model(self.pairs@) == orig.take(i as int).filter(pred),
                decreases n - i,
            {
                let ghost before = rest@;
                proof {
                    assert(pairs_model(before).len() == before.len());
                    assert(pairs_model(before)[0] == pair_model(&before[0]));
                }
                let p = rest.remove(0);
                proof {
                    reveal(Seq::filter);
                    assert(orig.skip(i as int)[0] == orig[i as int]);
                    assert(pair_model(&p) == orig[i as int]);
                    assert forall|j: int| 0 <= j < rest@.len() implies pairs_model(rest@)[j] == orig.skip(
                        i as int + 1,
                    )[j] by {
                        assert(rest@[j] == before[j + 1]);
                        assert(pairs_model(before)[j + 1] == pair_model(&before[j + 1]));
                        assert(orig.skip(i as int)[j + 1] == orig[i + 1 + j]);
                    }
                    assert(pairs_model(rest@) =~= orig.skip(i as int + 1));
                    assert(orig.take(i as int + 1).drop_last() =~= orig.take(i as int));
                }
                let keep = match self.flags {
                    NvFlag::UniqueName => !(p.name == key),
                    _ => !(p.name == key && data_kind(&p.data) == kind),
                };
                proof {
                    assert(keep == pred(orig[i as int]));
                    assert(orig.take(i as int + 1).last() == orig[i as int]);
                }
                let ghost kept_before = self.pairs@;
                if keep {
                    self.pairs.push(p);
                    proof {
                        assert(pairs_model(self.pairs@) =~= pairs_model(kept_before).push(orig[i as int]));
                    }
                }
                i = i + 1;
            }
            proof {
                assert(orig.take(n as int) =~= orig);
            }
        } else {
            proof {
                lemma_filter_keeps_all(orig, pred);
            }
        }
        let ghost before = self.pairs@;
        self.pairs.push(NvPair { name: key, data });
        proof {
            assert(pairs_model(self.pairs@) =~= pairs_model(before).push((name@, d)));
        }
        Ok(())
    }

    /// Add a `bool`.
    pub fn insert_bool(&mut self, name: &str, value: bool) -> (r: NvResult<()>)
        ensures
            insert_outcome(old(self)@, final(self)@, name@, Ok(()), DataModel::Bool(value), r),
    {
        match check_text(name) {
            Ok(()) => {},
            Err(e) => return Err(e),
        }
        self.add_data(name, NvData::Bool(value))
    }

    /// The `bool` stored under the given name.
    pub fn get_bool(&self, name: &str) -> (r: NvResult<bool>)
        ensures
            get_outcome(self@, name@, 0, r, |v: bool| DataModel::Bool(v)),
    {
        let i = match self.locate(name, 0) {
            Ok(i) => i,
            Err(e) => return Err(e),
        };
        match &self.pairs[i].data {
            NvData::Bool(v) => Ok(*v),
            _ => Err(NvError::NotFound),
        }
    }

    /// Add a string.
    pub fn insert_string(&mut self, name: &str, value: &str) -> (r: NvResult<()>)
        ensures
            insert_outcome(
                old(self)@,
                final(self)@,
                name@,
                text_result(value@),
                DataModel::Str(value@),
                r,
            ),
    {
        match check_text(name) {
            Ok(()) => {},
            Err(e) => return Err(e),
        }
        match check_text(value) {
            Ok(()) => {},
            Err(e) => return Err(e),
        }
        self.add_data(name, NvData::String(value.to_owned()))
    }

    /// The string stored under the given name, borrowed from the list.
    pub fn get_str(&self, name: &str) -> (r: NvResult<&str>)
        ensures
            get_outcome(self@, name@, 9, r, |v: &str| DataModel::Str(v@)),
    {
        let i = match self.locate(name, 9) {
            Ok(i) => i,
            Err(e) => return Err(e),
        };
        match &self.pairs[i].data {
            NvData::String(v) => Ok(v.as_str()),
            _ => Err(NvError::NotFound),
        }
    }

    /// The string stored under the given name, copied.
    pub fn get_string(&self, name: &str) -> (r: NvResult<String>)
        ensures
            get_outcome(self@, name@, 9, r, |v: String| DataModel::Str(v@)),
    {
        match self.get_str(name) {
            Ok(s) => Ok(s.to_owned()),
            Err(e) => Err(e),
        }
    }

    /// Add an `i8`.
    pub fn insert_i8(&mut self, name: &str, value: i8) -> (r: NvResult<()>)
        ensures
            insert_outcome(old(self)@, final(self)@, name@, Ok(()), DataModel::Int8(value), r),
    {
        match check_text(name) {
            Ok(()) => {},
            Err(e) => return Err(e),
        }
        self.add_data(name, NvData::Int8(value))
    }

    /// The `i8` stored under the given name.
    pub fn get_i8(&self, name: &str) -> (r: NvResult<i8>)
        ensures
            get_outcome(self@, name@, 1, r, |v: i8| DataModel::Int8(v)),
    {
        let i = match self.locate(name, 1) {
            Ok(i) => i,
            Err(e) => return Err(e),
        };
        match &self.pairs[i].data {
            NvData::Int8(v) => Ok(*v),
            _ => Err(NvError::NotFound),
        }
    }

    /// Add an array of `i8` values.
    pub fn insert_i8_array(&mut self, name: &str, value: &[i8]) -> (r: NvResult<()>)
        ensures
            insert_outcome(
                old(self)@,
                final(self)@,
                name@,
                Ok(()),
                DataModel::Int8Array(value@),
                r,
            ),
    {
        match check_text(name) {
            Ok(()) => {},
            Err(e) => return Err(e),
        }
        self.add_data(name, NvData::Int8Array(vstd::slice::slice_to_vec(value)))
    }

    /// The array of `i8` values stored under the given name, borrowed from
    /// the list.
    pub fn get_i8_array(&self, name: &str) -> (r: NvResult<&[i8]>)
        ensures
            get_outcome(self@, name@, 10, r, |v: &[i8]| DataModel::Int8Array(v@)),
    {
        let i = match self.locate(name, 10) {
            Ok(i) => i,
            Err(e) => return Err(e),
        };
        match &self.pairs[i].data {
            NvData::Int8Array(v) => Ok(v.as_slice()),
            _ => Err(NvError::NotFound),
        }
    }

    /// Add an `u8`.
    pub fn insert_u8(&mut self, name: &str, value: u8) -> (r: NvResult<()>)
        ensures
            insert_outcome(old(self)@, final(self)@, name@, Ok(()), DataModel::Uint8(value), r),
    {
        match check_text(name) {
            Ok(()) => {},
            Err(e) => return Err(e),
        }
        self.add_data(name, NvData::Uint8(value))
    }

    /// The `u8` stored under the given name.
    pub fn get_u8(&self, name: &str) -> (r: NvResult<u8>)
        ensures
            get_outcome(self@, name@, 2, r, |v: u8| DataModel::Uint8(v)),
    {
        let i = match self.locate(name, 2) {
            Ok(i) => i,
            Err(e) => return Err(e),
        };
        match &self.pairs[i].data {
            NvData::Uint8(v) => Ok(*v),
            _ => Err(NvError::NotFound),
        }
    }

    /// Add an array of `u8` values.
    pub fn insert_u8_array(&mut self, name: &str, value: &[u8]) -> (r: NvResult<()>)
        ensures
            insert_outcome(
                old(self)@,
                final(self)@,
                name@,
                Ok(()),
                DataModel::Uint8Array(value@),
                r,
            ),
    {
        match check_text(name) {
            Ok(()) => {},
            Err(e) => return Err(e),
        }
        self.add_data(name, NvData::Uint8Array(vstd::slice::slice_to_vec(value)))
    }

    /// The array of `u8` values stored under the given name, borrowed from
    /// the list.
    pub fn get_u8_array(&self, name: &str) -> (r: NvResult<&[u8]>)
        ensures
            get_outcome(self@, name@, 11, r, |v: &[u8]| DataModel::Uint8Array(v@)),
    {
        let i = match self.locate(name, 11) {
            Ok(i) => i,
            Err(e) => return Err(e),
        };
        match &self.pairs[i].data {
            NvData::Uint8Array(v) => Ok(v.as_slice()),
            _ => Err(NvError::NotFound),
        }
    }

    /// Add an `i16`.
    pub fn insert_i16(&mut self, name: &str, value: i16) -> (r: NvResult<()>)
        ensures
            insert_outcome(old(self)@, final(self)@, name@, Ok(()), DataModel::Int16(value), r),
    {
        match check_text(name) {
            Ok(()) => {},
            Err(e) => return Err(e),
        }
        self.add_data(name, NvData::Int16(value))
    }

    /// The `i16` stored under the given name.
    pub fn get_i16(&self, name: &str) -> (r: NvResult<i16>)
        ensures
            get_outcome(self@, name@, 3, r, |v: i16| DataModel::Int16(v)),
    {
        let i = match self.locate(name, 3) {
            Ok(i) => i,
            Err(e) => return Err(e),
        };
        match &self.pairs[i].data {
            NvData::Int16(v) => Ok(*v),
            _ => Err(NvError::NotFound),
        }
    }

    /// Add an array of `i16` values.
    pub fn insert_i16_array(&mut self, name: &str, value: &[i16]) -> (r: NvResult<()>)
        ensures
            insert_outcome(
                old(self)@,
                final(self)@,
                name@,
                Ok(()),
                DataModel::Int16Array(value@),
                r,
            ),
    {
        match check_text(name) {
            Ok(()) => {},
            Err(e) => return Err(e),
        }
        self.add_data(name, NvData::Int16Array(vstd::slice::slice_to_vec(value)))
    }

    /// The array of `i16` values stored under the given name, borrowed from
    /// the list.
    pub fn get_i16_array(&self, name: &str) -> (r: NvResult<&[i16]>)
        ensures
            get_outcome(self@, name@, 12, r, |v: &[i16]| DataModel::Int16Array(v@)),
    {
        let i = match self.locate(name, 12) {
            Ok(i) => i,
            Err(e) => return Err(e),
        };
        match &self.pairs[i].data {
            NvData::Int16Array(v) => Ok(v.as_slice()),
            _ => Err(NvError::NotFound),
        }
    }

    /// Add an `u16`.
    pub fn insert_u16(&mut self, name: &str, value: u16) -> (r: NvResult<()>)
        ensures
            insert_outcome(old(self)@, final(self)@, name@, Ok(()), DataModel::Uint16(value), r),
    {
        match check_text(name) {
            Ok(()) => {},
            Err(e) => return Err(e),
        }
        self.add_data(name, NvData::Uint16(value))
    }

    /// The `u16` stored under the given name.
    pub fn get_u16(&self, name: &str) -> (r: NvResult<u16>)
        ensures
            get_outcome(self@, name@, 4, r, |v: u16| DataModel::Uint16(v)),
    {
        let i = match self.locate(name, 4) {
            Ok(i) => i,
            Err(e) => return Err(e),
        };
        match &self.pairs[i].data {
            NvData::Uint16(v) => Ok(*v),
            _ => Err(NvError::NotFound),
        }
    }

    /// Add an array of `u16` values.
    pub fn insert_u16_array(&mut self, name: &str, value: &[u16]) -> (r: NvResult<()>)
        ensures
            insert_outcome(
                old(self)@,
                final(self)@,
                name@,
                Ok(()),
                DataModel::Uint16Array(value@),
                r,
            ),
    {
        match check_text(name) {
            Ok(()) => {},
            Err(e) => return Err(e),
        }
        self.add_data(name, NvData::Uint16Array(vstd::slice::slice_to_vec(value)))
    }

    /// The array of `u16` values stored under the given name, borrowed from
    /// the list.
    pub fn get_u16_array(&self, name: &str) -> (r: NvResult<&[u16]>)
        ensures
            get_outcome(self@, name@, 13, r, |v: &[u16]| DataModel::Uint16Array(v@)),
    {
        let i = match self.locate(name, 13) {
            Ok(i) => i,
            Err(e) => return Err(e),
        };
        match &self.pairs[i].data {
            NvData::Uint16Array(v) => Ok(v.as_slice()),
            _ => Err(NvError::NotFound),
        }
    }

    /// Add an `i32`.
    pub fn insert_i32(&mut self, name: &str, value: i32) -> (r: NvResult<()>)
        ensures
            insert_outcome(old(self)@, final(self)@, name@, Ok(()), DataModel::Int32(value), r),
    {
        match check_text(name) {
            Ok(()) => {},
            Err(e) => return Err(e),
        }
        self.add_data(name, NvData::Int32(value))
    }

    /// The `i32` stored under the given name.
    pub fn get_i32(&self, name: &str) -> (r: NvResult<i32>)
        ensures
            get_outcome(self@, name@, 5, r, |v: i32| DataModel::Int32(v)),
    {
        let i = match self.locate(name, 5) {
            Ok(i) => i,
            Err(e) => return Err(e),
        };
        match &self.pairs[i].data {
            NvData::Int32(v) => Ok(*v),
            _ => Err(NvError::NotFound),
        }
    }

    /// Add an array of `i32` values.
    pub fn insert_i32_array(&mut self, name: &str, value: &[i32]) -> (r: NvResult<()>)
        ensures
            insert_outcome(
                old(self)@,
                final(self)@,
                name@,
                Ok(()),
                DataModel::Int32Array(value@),
                r,
            ),
    {
        match check_text(name) {
            Ok(()) => {},
            Err(e) => return Err(e),
        }
        self.add_data(name, NvData::Int32Array(vstd::slice::slice_to_vec(value)))
    }

    /// The array of `i32` values stored under the given name, borrowed from
    /// the list.
    pub fn get_i32_array(&self, name: &str) -> (r: NvResult<&[i32]>)
        ensures
            get_outcome(self@, name@, 14, r, |v: &[i32]| DataModel::Int32Array(v@)),
    {
        let i = match self.locate(name, 14) {
            Ok(i) => i,
            Err(e) => return Err(e),
        };
        match &self.pairs[i].data {
            NvData::Int32Array(v) => Ok(v.as_slice()),
            _ => Err(NvError::NotFound),
        }
    }

    /// Add an `u32`.
    pub fn insert_u32(&mut self, name: &str, value: u32) -> (r: NvResult<()>)
        ensures
            insert_outcome(old(self)@, final(self)@, name@, Ok(()), DataModel::Uint32(value), r),
    {
        match check_text(name) {
            Ok(()) => {},
            Err(e) => return Err(e),
        }
        self.add_data(name, NvData::Uint32(value))
    }

    /// The `u32` stored under the given name.
    pub fn get_u32(&self, name: &str) -> (r: NvResult<u32>)
        ensures
            get_outcome(self@, name@, 6, r, |v: u32| DataModel::Uint32(v)),
    {
        let i = match self.locate(name, 6) {
            Ok(i) => i,
            Err(e) => return Err(e),
        };
        match &self.pairs[i].data {
            NvData::Uint32(v) => Ok(*v),
            _ => Err(NvError::NotFound),
        }
    }

    /// Add an array of `u32` values.
    pub fn insert_u32_array(&mut self, name: &str, value: &[u32]) -> (r: NvResult<()>)
        ensures
            insert_outcome(
                old(self)@,
                final(self)@,
                name@,
                Ok(()),
                DataModel::Uint32Array(value@),
                r,
            ),
    {
        match check_text(name) {
            Ok(()) => {},
            Err(e) => return Err(e),
        }
        self.add_data(name, NvData::Uint32Array(vstd::slice::slice_to_vec(value)))
    }

    /// The array of `u32` values stored under the given name, borrowed from
    /// the list.
    pub fn get_u32_array(&self, name: &str) -> (r: NvResult<&[u32]>)
        ensures
            get_outcome(self@, name@, 15, r, |v: &[u32]| DataModel::Uint32Array(v@)),
    {
        let i = match self.locate(name, 15) {
            Ok(i) => i,
            Err(e) => return Err(e),
        };
        match &self.pairs[i].data {
            NvData::Uint32Array(v) => Ok(v.as_slice()),
            _ => Err(NvError::NotFound),
        }
    }

    /// Add an `i64`.
    pub fn insert_i64(&mut self, name: &str, value: i64) -> (r: NvResult<()>)
        ensures
            insert_outcome(old(self)@, final(self)@, name@, Ok(()), DataModel::Int64(value), r),
    {
        match check_text(name) {
            Ok(()) => {},
            Err(e) => return Err(e),
        }
        self.add_data(name, NvData::Int64(value))
    }

    /// The `i64` stored under the given name.
    pub fn get_i64(&self, name: &str) -> (r: NvResult<i64>)
        ensures
            get_outcome(self@, name@, 7, r, |v: i64| DataModel::Int64(v)),
    {
        let i = match self.locate(name, 7) {
            Ok(i) => i,
            Err(e) => return Err(e),
        };
        match &self.pairs[i].data {
            NvData::Int64(v) => Ok(*v),
            _ => Err(NvError::NotFound),
        }
    }

    /// Add an array of `i64` values.
    pub fn insert_i64_array(&mut self, name: &str, value: &[i64]) -> (r: NvResult<()>)
        ensures
            insert_outcome(
                old(self)@,
                final(self)@,
                name@,
                Ok(()),
                DataModel::Int64Array(value@),
                r,
            ),
    {
        match check_text(name) {
            Ok(()) => {},
            Err(e) => return Err(e),
        }
        self.add_data(name, NvData::Int64Array(vstd::slice::slice_to_vec(value)))
    }

    /// The array of `i64` values stored under the given name, borrowed from
    /// the list.
    pub fn get_i64_array(&self, name: &str) -> (r: NvResult<&[i64]>)
        ensures
            get_outcome(self@, name@, 16, r, |v: &[i64]| DataModel::Int64Array(v@)),
    {
        let i = match self.locate(name, 16) {
            Ok(i) => i,
            Err(e) => return Err(e),
        };
        match &self.pairs[i].data {
            NvData::Int64Array(v) => Ok(v.as_slice()),
            _ => Err(NvError::NotFound),
        }
    }

    /// Add an `u64`.
    pub fn insert_u64(&mut self, name: &str, value: u64) -> (r: NvResult<()>)
        ensures
            insert_outcome(old(self)@, final(self)@, name@, Ok(()), DataModel::Uint64(value), r),
    {
        match check_text(name) {
            Ok(()) => {},
            Err(e) => return Err(e),
        }
        self.add_data(name, NvData::Uint64(value))
    }

    /// The `u64` stored under the given name.
    pub fn get_u64(&self, name: &str) -> (r: NvResult<u64>)
        ensures
            get_outcome(self@, name@, 8, r, |v: u64| DataModel::Uint64(v)),
    {
        let i = match self.locate(name, 8) {
            Ok(i) => i,
            Err(e) => return Err(e),
        };
        match &self.pairs[i].data {
            NvData::Uint64(v) => Ok(*v),
            _ => Err(NvError::NotFound),
        }
    }

    /// Add an array of `u64` values.
    pub fn insert_u64_array(&mut self, name: &str, value: &[u64]) -> (r: NvResult<()>)
        ensures
            insert_outcome(
                old(self)@,
                final(self)@,
                name@,
                Ok(()),
                DataModel::Uint64Array(value@),
                r,
            ),
    {
        match check_text(name) {
            Ok(()) => {},
            Err(e) => return Err(e),
        }
        self.add_data(name, NvData::Uint64Array(vstd::slice::slice_to_vec(value)))
    }

    /// The array of `u64` values stored under the given name, borrowed from
    /// the list.
    pub fn get_u64_array(&self, name: &str) -> (r: NvResult<&[u64]>)
        ensures
            get_outcome(self@, name@, 17, r, |v: &[u64]| DataModel::Uint64Array(v@)),
    {
        let i = match self.locate(name, 17) {
            Ok(i) => i,
            Err(e) => return Err(e),
        };
        match &self.pairs[i].data {
            NvData::Uint64Array(v) => Ok(v.as_slice()),
            _ => Err(NvError::NotFound),
        }
    }
}

/// Lists created with no flags are of little use: lookups by name need unique
/// names, so the default is unique by name and type.
impl Default for NvList {
    fn default() -> (r: NvList)
        ensures
            r@ == (ListModel { flags: NvFlag::UniqueNameType, pairs: Seq::empty() }),
    {
        let l = NvList { flags: NvFlag::UniqueNameType, pairs: Vec::new() };
        proof {
            assert(l@.pairs =~= Seq::empty());
        }
        l
    }
}

/// A value that can insert itself into a list under a name, so that one
/// generic call inserts any supported type.
pub trait NvTypeOp {
    /// The value that an insertion adds.
    spec fn nv_model(&self) -> DataModel;

    /// Whether the value converts for storage (`Err` for a string with a NUL).
    spec fn nv_check(&self) -> NvResult<()>;

    /// Add `self` to `list` under `name`.
    fn add_to_list(&self, list: &mut NvList, name: &str) -> (r: NvResult<()>)
        ensures
            insert_outcome(old(list)@, final(list)@, name@, self.nv_check(), self.nv_model(), r),
    ;
}

impl NvTypeOp for bool {
    open spec fn nv_model(&self) -> DataModel {
        DataModel::Bool(*self)
    }

    open spec fn nv_check(&self) -> NvResult<()> {
        Ok(())
    }

    fn add_to_list(&self, list: &mut NvList, name: &str) -> (r: NvResult<()>) {
        list.insert_bool(name, *self)
    }
}

impl NvTypeOp for i8 {
    open spec fn nv_model(&self) -> DataModel {
        DataModel::Int8(*self)
    }

    open spec fn nv_check(&self) -> NvResult<()> {
        Ok(())
    }

    fn add_to_list(&self, list: &mut NvList, name: &str) -> (r: NvResult<()>) {
        list.insert_i8(name, *self)
    }
}

impl NvTypeOp for u8 {
    open spec fn nv_model(&self) -> DataModel {
        DataModel::Uint8(*self)
    }

    open spec fn nv_check(&self) -> NvResult<()> {
        Ok(())
    }

    fn add_to_list(&self, list: &mut NvList, name: &str) -> (r: NvResult<()>) {
        list.insert_u8(name, *self)
    }
}

impl NvTypeOp for i16 {
    open spec fn nv_model(&self) -> DataModel {
        DataModel::Int16(*self)
    }

    open spec fn nv_check(&self) -> NvResult<()> {
        Ok(())
    }

    fn add_to_list(&self, list: &mut NvList, name: &str) -> (r: NvResult<()>) {
        list.insert_i16(name, *self)
    }
}

impl NvTypeOp for u16 {
    open spec fn nv_model(&self) -> DataModel {
        DataModel::Uint16(*self)
    }

    open spec fn nv_check(&self) -> NvResult<()> {
        Ok(())
    }

    fn add_to_list(&self, list: &mut NvList, name: &str) -> (r: NvResult<()>) {
        list.insert_u16(name, *self)
    }
}

impl NvTypeOp for i32 {
    open spec fn nv_model(&self) -> DataModel {
        DataModel::Int32(*self)
    }

    open spec fn nv_check(&self) -> NvResult<()> {
        Ok(())
    }

    fn add_to_list(&self, list: &mut NvList, name: &str) -> (r: NvResult<()>) {
        list.insert_i32(name, *self)
    }
}

impl NvTypeOp for u32 {
    open spec fn nv_model(&self) -> DataModel {
        DataModel::Uint32(*self)
    }

    open spec fn nv_check(&self) -> NvResult<()> {
        Ok(())
    }

    fn add_to_list(&self, list: &mut NvList, name: &str) -> (r: NvResult<()>) {
        list.insert_u32(name, *self)
    }
}

impl NvTypeOp for i64 {
    open spec fn nv_model(&self) -> DataModel {
        DataModel::Int64(*self)
    }

    open spec fn nv_check(&self) -> NvResult<()> {
        Ok(())
    }

    fn add_to_list(&self, list: &mut NvList, name: &str) -> (r: NvResult<()>) {
        list.insert_i64(name, *self)
    }
}

impl NvTypeOp for u64 {
    open spec fn nv_model(&self) -> DataModel {
        DataModel::Uint64(*self)
    }

    open spec fn nv_check(&self) -> NvResult<()> {
        Ok(())
    }

    fn add_to_list(&self, list: &mut NvList, name: &str) -> (r: NvResult<()>) {
        list.insert_u64(name, *self)
    }
}

impl<'a> NvTypeOp for &'a str {
    open spec fn nv_model(&self) -> DataModel {
        DataModel::Str(self@)
    }

    open spec fn nv_check(&self) -> NvResult<()> {
        text_result(self@)
    }

    fn add_to_list(&self, list: &mut NvList, name: &str) -> (r: NvResult<()>) {
        list.insert_string(name, *self)
    }
}

/// One pair of a list, borrowed from it.
#[derive(Debug)]
pub struct NvPairRef<'a> {
    pair: &'a NvPair,
}

impl<'a> View for NvPairRef<'a> {
    type V = (Seq<char>, DataModel);

    closed spec fn view(&self) -> (Seq<char>, DataModel) {
        pair_model(self.pair)
    }
}

impl<'a> NvPairRef<'a> {
    /// The pair's name.
    pub fn key(&self) -> (r: &'a str)
        ensures
            r@ == self@.0,
    {
        self.pair.name.as_str()
    }

    /// The pair's value, decoded; arrays read as `Unknown`.
    pub fn value(&self) -> (r: Value)
        ensures
            decodes_to(self@.1, r),
    {
        decode(&self.pair.data)
    }
}

/// The pairs of a list, one after the other.
#[derive(Debug)]
pub struct NvListIter<'a> {
    list: &'a NvList,
    position: usize,
}

impl<'a> NvListIter<'a> {
    /// The list walked.
    pub closed spec fn source(&self) -> ListModel {
        self.list@
    }

    /// How many pairs have been handed out.
    pub closed spec fn position(&self) -> int {
        self.position as int
    }

    /// The next pair, or `None` once all have been handed out.
    pub fn next(&mut self) -> (r: Option<NvPairRef<'a>>)
        ensures
            final(self).source() == old(self).source(),
            old(self).position() < old(self).source().pairs.len() ==> (r matches Some(p) && p@
                == old(self).source().pairs[old(self).position()] && final(self).position() == old(
                self,
            ).position() + 1),
            old(self).position() >= old(self).source().pairs.len() ==> (r is None
                && final(self).position() == old(self).position()),
    {
        if self.position < self.list.pairs.len() {
            let p = NvPairRef { pair: &self.list.pairs[self.position] };
            self.position = self.position + 1;
            Some(p)
        } else {
            None
        }
    }
}

impl NvList {
    /// The pairs as a map from name to decoded value; of pairs that share a
    /// name, the last one counts.
    pub fn into_hashmap(self) -> (r: HashMap<String, Value>)
        ensures
            vstd::std_specs::hash::obeys_key_model::<String>()
                && vstd::std_specs::hash::builds_valid_hashers::<std::hash::RandomState>() ==> (
            forall|k: String| #[trigger]
                r@.contains_key(k) ==> exists|i: int|
                    0 <= i < self@.pairs.len() && self@.pairs[i].0 == k@),
    {
        let mut ret: HashMap<String, Value> = HashMap::new();
        let mut i: usize = 0;
        while i < self.pairs.len()
            invariant
                i <= self.pairs@.len(),
                vstd::std_specs::hash::obeys_key_model::<String>()
                    && vstd::std_specs::hash::builds_valid_hashers::<std::hash::RandomState>() ==> (
                forall|k: String| #[trigger]
                    ret@.contains_key(k) ==> exists|j: int|
                        0 <= j < i && self@.pairs[j].0 == k@),
            decreases self.pairs@.len() - i,
        {
            let key = self.pairs[i].name.clone();
            let value = decode(&self.pairs[i].data);
            proof {
                assert(self@.pairs[i as int].0 == key@);
            }
            ret.insert(key, value);
            i = i + 1;
        }
        ret
    }
}

/// Reading back what was inserted: on a list whose names are unique (by
/// name, or by name and type), once an insertion of `(name, d)` has
/// succeeded, a lookup of that name and type gives `d`.
pub proof fn lemma_insert_then_lookup(
    old: ListModel,
    new: ListModel,
    name: Seq<char>,
    check: NvResult<()>,
    d: DataModel,
    r: NvResult<()>,
)
    requires
        insert_outcome(old, new, name, check, d, r),
        r is Ok,
        !(old.flags is NoFlags),
    ensures
        new.lookup(name, kind_of(d)) == Some(d),
{
    let k = kind_of(d);
    let pred = |p: (Seq<char>, DataModel)| stays(old.flags, name, d, p);
    let kept = old.pairs.filter(pred);
    assert(new.pairs == kept.push((name, d)));
    broadcast use vstd::seq_lib::group_filter_ensures;

    let i = kept.len() as int;
    assert(new.matches_at(name, k, i));
    assert forall|j: int| 0 <= j < i implies !new.matches_at(name, k, j) by {
        assert(new.pairs[j] == kept[j]);
        assert(pred(kept[j]));
    }
    let c = choose|c: int| new.first_at(name, k, c);
    assert(new.first_at(name, k, i));
    if c < i {
        assert(!new.matches_at(name, k, c));
    } else if c > i {
        assert(!new.matches_at(name, k, i));
    }
}

/// Insertion keeps order: a pair under a name the list does not hold yet
/// goes after all the pairs already there, which stay as they were.
pub proof fn lemma_insert_appends(
    old: ListModel,
    new: ListModel,
    name: Seq<char>,
    check: NvResult<()>,
    d: DataModel,
    r: NvResult<()>,
)
    requires
        insert_outcome(old, new, name, check, d, r),
        r is Ok,
        !old.has_name(name),
    ensures
        new.pairs == old.pairs.push((name, d)),
{
    let pred = |p: (Seq<char>, DataModel)| stays(old.flags, name, d, p);
    assert forall|j: int| 0 <= j < old.pairs.len() implies pred(#[trigger] old.pairs[j]) by {
        assert(old.pairs[j].0 != name);
    }
    lemma_filter_keeps_all(old.pairs, pred);
}

} // verus!
