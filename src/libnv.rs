//! Name/value lists in the manner of FreeBSD's libnv.
//!
//! A list keeps its pairs in insertion order. Unless it was created with
//! [`NvFlag::NoUnique`] or [`NvFlag::Both`], a name may occur only once; with
//! [`NvFlag::IgnoreCase`] or [`NvFlag::Both`], names are compared without
//! regard to ASCII case. A failed insertion leaves a sticky error code on the
//! list: from then on every insertion fails with that code.
use vstd::prelude::*;

pub mod format;
mod packed;

pub use self::packed::{unpack_outcome, BorrowedPackedNvList, PackedNvList};

use self::format::{data_has_descriptor, has_descriptor, pairs_have_descriptor};
use crate::{check_text, text_result, texts_result, valid_text, NvError, NvResult};

verus! {

/// The types of value that a list can hold.
#[derive(Clone, Copy, Debug, PartialEq, Eq, Structural)]
pub enum NvType {
    /// Any type: as a filter, matches every pair.
    Any,
    /// There is no associated data with the name.
    Null,
    /// The value is a `bool`.
    Bool,
    /// The value is a `u64`.
    Number,
    /// The value is a string.
    String,
    /// The value is another list.
    NvList,
    /// The value is a file descriptor.
    Descriptor,
    /// The value is a byte buffer.
    Binary,
    /// The value is an array of `bool` values.
    BoolArray,
    /// The value is an array of `u64` values.
    NumberArray,
    /// The value is an array of strings.
    StringArray,
    /// The value is an array of lists.
    NvListArray,
    /// The value is an array of file descriptors.
    DescriptorArray,
}

/// Options given when a list is created.
#[derive(Clone, Copy, Debug, PartialEq, Eq, Structural)]
pub enum NvFlag {
    /// No options.
    NoFlags,
    /// Names are compared without regard to ASCII case.
    IgnoreCase,
    /// Names do not have to be unique.
    NoUnique,
    /// Both of the above.
    Both,
}

/// Names are compared without regard to ASCII case.
pub open spec fn ignores_case(f: NvFlag) -> bool {
    f is IgnoreCase || f is Both
}

/// A name may occur more than once.
pub open spec fn allows_duplicates(f: NvFlag) -> bool {
    f is NoUnique || f is Both
}

/// The numeric code of a flag set, as stored in a packed list.
pub open spec fn flag_code(f: NvFlag) -> u8 {
    match f {
        NvFlag::NoFlags => 0,
        NvFlag::IgnoreCase => 1,
        NvFlag::NoUnique => 2,
        NvFlag::Both => 3,
    }
}

impl NvFlag {
    /// The numeric code of this flag set: bit 0 for case-insensitive names,
    /// bit 1 for non-unique names.
    pub fn code(self) -> (r: u8)
        ensures
            r == flag_code(self),
    {
        match self {
            NvFlag::NoFlags => 0,
            NvFlag::IgnoreCase => 1,
            NvFlag::NoUnique => 2,
            NvFlag::Both => 3,
        }
    }

    /// The flag set with the given numeric code, if there is one.
    pub fn from_code(code: i32) -> (r: Option<NvFlag>)
        ensures
            r matches Some(f) ==> flag_code(f) == code,
            r is None <==> !(0 <= code <= 3),
    {
        if code == 0 {
            Some(NvFlag::NoFlags)
        } else if code == 1 {
            Some(NvFlag::IgnoreCase)
        } else if code == 2 {
            Some(NvFlag::NoUnique)
        } else if code == 3 {
            Some(NvFlag::Both)
        } else {
            None
        }
    }
}

/// The byte `c` with ASCII upper case letters made lower case.
pub open spec fn ascii_lower(c: u8) -> u8 {
    if 65 <= c <= 90 {
        (c + 32) as u8
    } else {
        c
    }
}

/// Two byte strings are equal up to ASCII case.
pub open spec fn same_ignoring_case(a: Seq<u8>, b: Seq<u8>) -> bool {
    &&& a.len() == b.len()
    &&& forall|i: int| 0 <= i < a.len() ==> ascii_lower(a[i]) == ascii_lower(b[i])
}

/// Whether a list created with `flags` treats `a` and `b` as the same name.
pub open spec fn names_match(flags: NvFlag, a: Seq<char>, b: Seq<char>) -> bool {
    if ignores_case(flags) {
        same_ignoring_case(vstd::utf8::encode_utf8(a), vstd::utf8::encode_utf8(b))
    } else {
        a == b
    }
}

/// The value of one pair, as a mathematical object.
pub enum DataModel {
    Null,
    Bool(bool),
    Number(u64),
    Str(Seq<char>),
    List(ListModel),
    Descriptor(i32),
    Binary(Seq<u8>),
    BoolArray(Seq<bool>),
    NumberArray(Seq<u64>),
    StrArray(Seq<Seq<char>>),
    ListArray(Seq<ListModel>),
}

/// A list as a mathematical object: its flags, its error code and its pairs
/// in order.
pub struct ListModel {
    pub flags: NvFlag,
    pub error: i32,
    pub pairs: Seq<(Seq<char>, DataModel)>,
}

/// The type tag of a value.
pub open spec fn type_of(d: DataModel) -> NvType {
    match d {
        DataModel::Null => NvType::Null,
        DataModel::Bool(_) => NvType::Bool,
        DataModel::Number(_) => NvType::Number,
        DataModel::Str(_) => NvType::String,
        DataModel::List(_) => NvType::NvList,
        DataModel::Descriptor(_) => NvType::Descriptor,
        DataModel::Binary(_) => NvType::Binary,
        DataModel::BoolArray(_) => NvType::BoolArray,
        DataModel::NumberArray(_) => NvType::NumberArray,
        DataModel::StrArray(_) => NvType::StringArray,
        DataModel::ListArray(_) => NvType::NvListArray,
    }
}

impl ListModel {
    /// Pair `i` has name `name` (as the list compares names) and type `ty`
    /// (any type when `ty` is `NvType::Any`).
    pub open spec fn matches_at(self, name: Seq<char>, ty: NvType, i: int) -> bool {
        &&& 0 <= i < self.pairs.len()
        &&& names_match(self.flags, name, self.pairs[i].0)
        &&& (ty is Any || type_of(self.pairs[i].1) == ty)
    }

    /// Pair `i` is the first that matches `name` and `ty`.
    pub open spec fn first_at(self, name: Seq<char>, ty: NvType, i: int) -> bool {
        &&& self.matches_at(name, ty, i)
        &&& forall|j: int| 0 <= j < i ==> !self.matches_at(name, ty, j)
    }

    /// Some pair matches `name` and `ty`.
    pub open spec fn contains(self, name: Seq<char>, ty: NvType) -> bool {
        exists|i: int| self.first_at(name, ty, i)
    }

    /// The value of the first pair that matches `name` and `ty`.
    pub open spec fn lookup(self, name: Seq<char>, ty: NvType) -> Option<DataModel> {
        if self.contains(name, ty) {
            Some(self.pairs[choose|i: int| self.first_at(name, ty, i)].1)
        } else {
            None
        }
    }

    /// The list with the pair `(name, d)` appended.
    pub open spec fn push(self, name: Seq<char>, d: DataModel) -> ListModel {
        ListModel { pairs: self.pairs.push((name, d)), ..self }
    }

    /// An insertion of `name` would be accepted: no error is pending and the
    /// name is new or may repeat.
    pub open spec fn accepts(self, name: Seq<char>) -> bool {
        &&& self.error == 0
        &&& (allows_duplicates(self.flags) || !self.contains(name, NvType::Any))
    }

    /// The list with the first pair that matches `name` and `ty` removed, or
    /// unchanged when none matches.
    pub open spec fn without(self, name: Seq<char>, ty: NvType) -> ListModel {
        if self.contains(name, ty) {
            let i = choose|i: int| self.first_at(name, ty, i);
            ListModel { pairs: self.pairs.remove(i), ..self }
        } else {
            self
        }
    }
}

/// What an insertion of `(name, d)` into `old` does, once `name` has been
/// found valid: it fails with the pending error, or (when `d` is a list value
/// carrying an error, `carried != 0`) takes on that error, or, for a name that
/// may not repeat, sets a positive error code; otherwise it appends the pair.
pub open spec fn insert_effect(
    old: ListModel,
    new: ListModel,
    name: Seq<char>,
    d: DataModel,
    carried: i32,
    r: NvResult<()>,
) -> bool {
    if old.error != 0 {
        new == old && r == Err::<(), NvError>(NvError::NativeError(old.error))
    } else if carried != 0 {
        new == ListModel { error: carried, ..old } && r == Err::<(), NvError>(
            NvError::NativeError(carried),
        )
    } else if old.accepts(name) {
        new == old.push(name, d) && r is Ok
    } else {
        &&& new == ListModel { error: new.error, ..old }
        &&& new.error > 0
        &&& r == Err::<(), NvError>(NvError::NativeError(new.error))
    }
}

/// What an insertion does in full: a name that is not valid, then a value
/// that cannot be converted (`check` is `Err`), fail and change nothing;
/// otherwise it acts as `insert_effect` says.
pub open spec fn add_outcome(
    old: ListModel,
    new: ListModel,
    name: Seq<char>,
    check: NvResult<()>,
    d: DataModel,
    carried: i32,
    r: NvResult<()>,
) -> bool {
    if !valid_text(name) {
        new == old && r == text_result(name)
    } else if check is Err {
        new == old && r == check
    } else {
        insert_effect(old, new, name, d, carried, r)
    }
}

/// What a call that only reads under a name gives when the name is valid:
/// `Ok` of `v`; otherwise the name's `InvalidString` error.
pub open spec fn read_result<T>(name: Seq<char>, v: T) -> NvResult<T> {
    if valid_text(name) {
        Ok(v)
    } else {
        Err(text_result(name)->Err_0)
    }
}

/// The views of a slice of texts.
pub open spec fn texts_view(v: Seq<&str>) -> Seq<Seq<char>> {
    Seq::new(v.len(), |i: int| v[i]@)
}

/// The models of a slice of lists.
pub open spec fn lists_view(v: Seq<NvList>) -> Seq<ListModel> {
    Seq::new(v.len(), |i: int| v[i]@)
}

/// The error that inserting copies of `ls` carries over: that of the first
/// list with a pending error, else 0.
#[verifier::opaque]
pub open spec fn carried_error(ls: Seq<ListModel>) -> i32 {
    if forall|i: int| 0 <= i < ls.len() ==> (#[trigger] ls[i]).error == 0 {
        0
    } else {
        ls[choose|k: int|
            0 <= k < ls.len() && ls[k].error != 0 && forall|j: int|
                0 <= j < k ==> (#[trigger] ls[j]).error == 0].error
    }
}

/// The views of a sequence of strings.
pub open spec fn strings_view(v: Seq<String>) -> Seq<Seq<char>> {
    Seq::new(v.len(), |i: int| v[i]@)
}

/// What a lookup under `name` returns, where `found` is what the list holds
/// there and `model` turns a returned value into what it stands for: the
/// name's `InvalidString` error for a name that is not valid, else `None`
/// exactly when nothing was found, else the value found.
pub open spec fn read_outcome<T>(
    name: Seq<char>,
    found: Option<DataModel>,
    r: NvResult<Option<T>>,
    model: spec_fn(T) -> DataModel,
) -> bool {
    match r {
        Ok(Some(v)) => valid_text(name) && found == Some(model(v)),
        Ok(None) => valid_text(name) && found is None,
        Err(e) => !valid_text(name) && text_result(name) == Err::<(), NvError>(e),
    }
}

/// What a removal of `name` (of type `ty`) does: with a valid name, the first
/// matching pair goes, if there is one, and the pending error, if any, is
/// returned; with a name that is not valid, nothing changes.
pub open spec fn remove_outcome(
    old: ListModel,
    new: ListModel,
    name: Seq<char>,
    ty: NvType,
    r: NvResult<()>,
) -> bool {
    if valid_text(name) {
        &&& new == old.without(name, ty)
        &&& r == (if old.error == 0 {
            Ok::<(), NvError>(())
        } else {
            Err(NvError::NativeError(old.error))
        })
    } else {
        new == old && r == text_result(name)
    }
}

/// What setting the error `code` does: on a list with a pending error it
/// fails with `AlreadySet` and changes nothing; otherwise the list takes the
/// code (a code of 0 leaves it without error).
pub open spec fn set_error_outcome(old: ListModel, new: ListModel, code: i32, r: NvResult<()>) -> bool {
    if old.error != 0 {
        r == Err::<(), NvError>(NvError::AlreadySet) && new == old
    } else {
        r is Ok && new == (ListModel { error: code, ..old })
    }
}

/// The value of one pair.
#[derive(Debug)]
enum NvData {
    Null,
    Bool(bool),
    Number(u64),
    String(String),
    NvList(NvList),
    Descriptor(i32),
    Binary(Vec<u8>),
    BoolArray(Vec<bool>),
    NumberArray(Vec<u64>),
    StringArray(Vec<String>),
    NvListArray(Vec<NvList>),
}

#[derive(Debug)]
struct NvPair {
    name: String,
    data: NvData,
}

/// A list of name/value pairs.
#[derive(Debug)]
pub struct NvList {
    flags: NvFlag,
    error: i32,
    pairs: Vec<NvPair>,
}

spec fn empty_list_model() -> ListModel {
    ListModel { flags: NvFlag::NoFlags, error: 0, pairs: Seq::empty() }
}

spec fn data_model(d: &NvData) -> DataModel
    decreases d,
{
    match d {
        NvData::Null => DataModel::Null,
        NvData::Bool(b) => DataModel::Bool(*b),
        NvData::Number(n) => DataModel::Number(*n),
        NvData::String(s) => DataModel::Str(s@),
        NvData::NvList(l) => DataModel::List(list_model(l)),
        NvData::Descriptor(fd) => DataModel::Descriptor(*fd),
        NvData::Binary(v) => DataModel::Binary(v@),
        NvData::BoolArray(v) => DataModel::BoolArray(v@),
        NvData::NumberArray(v) => DataModel::NumberArray(v@),
        NvData::StringArray(v) => DataModel::StrArray(
            Seq::new(v.len() as nat, |i: int| if 0 <= i < v.len() { v@[i]@ } else { Seq::empty() }),
        ),
        NvData::NvListArray(v) => DataModel::ListArray(
            Seq::new(
                v.len() as nat,
                |i: int|
                    if 0 <= i < v.len() {
                        list_model(&v@[i])
                    } else {
                        empty_list_model()
                    },
            ),
        ),
    }
}

spec fn list_model(l: &NvList) -> ListModel
    decreases l,
{
    ListModel {
        flags: l.flags,
        error: l.error,
        pairs: Seq::new(
            l.pairs.len() as nat,
            |i: int|
                if 0 <= i < l.pairs.len() {
                    (l.pairs@[i].name@, data_model(&l.pairs@[i].data))
                } else {
                    (Seq::empty(), DataModel::Null)
                },
        ),
    }
}

impl View for NvList {
    type V = ListModel;

    closed spec fn view(&self) -> ListModel {
        list_model(self)
    }
}

/// Relies on libc::EEXIST: the platform's code for "already exists", which
/// is positive.
#[verifier::external_body]
fn code_exists() -> (r: i32)
    ensures
        r > 0,
{
    libc::EEXIST
}

fn lower(c: u8) -> (r: u8)
    ensures
        r == ascii_lower(c),
{
    if 65 <= c && c <= 90 {
        c + 32
    } else {
        c
    }
}

fn same_bytes_ignoring_case(a: &[u8], b: &[u8]) -> (r: bool)
    ensures
        r == same_ignoring_case(a@, b@),
{
    if a.len() != b.len() {
        return false;
    }
    let mut i: usize = 0;
    while i < a.len()
        invariant
            a@.len() == b@.len(),
            i <= a@.len(),
            forall|j: int| 0 <= j < i ==> ascii_lower(a@[j]) == ascii_lower(b@[j]),
        decreases a@.len() - i,
    {
        if lower(a[i]) != lower(b[i]) {
            return false;
        }
        i = i + 1;
    }
    true
}

fn data_type(d: &NvData) -> (t: NvType)
    ensures
        t == type_of(data_model(d)),
{
    match d {
        NvData::Null => NvType::Null,
        NvData::Bool(_) => NvType::Bool,
        NvData::Number(_) => NvType::Number,
        NvData::String(_) => NvType::String,
        NvData::NvList(_) => NvType::NvList,
        NvData::Descriptor(_) => NvType::Descriptor,
        NvData::Binary(_) => NvType::Binary,
        NvData::BoolArray(_) => NvType::BoolArray,
        NvData::NumberArray(_) => NvType::NumberArray,
        NvData::StringArray(_) => NvType::StringArray,
        NvData::NvListArray(_) => NvType::NvListArray,
    }
}

impl NvList {
    proof fn lemma_pair(&self, i: int)
        requires
            0 <= i < self.pairs.len(),
        ensures
            self@.pairs.len() == self.pairs.len(),
            self@.pairs[i] == (self.pairs@[i].name@, data_model(&self.pairs@[i].data)),
            self@.flags == self.flags,
            self@.error == self.error,
    {
    }

    proof fn lemma_shape(&self)
        ensures
            self@.pairs.len() == self.pairs.len(),
            self@.flags == self.flags,
            self@.error == self.error,
    {
    }

    /// Create a new, empty list with the given options.
    pub fn new(flags: NvFlag) -> (r: NvResult<NvList>)
        ensures
            r matches Ok(l) && l@ == (ListModel { flags, error: 0, pairs: Seq::empty() }),
    {
        let l = NvList { flags, error: 0, pairs: Vec::new() };
        proof {
            assert(l@.pairs =~= Seq::empty());
        }
        Ok(l)
    }

    /// Whether the list holds no pair.
    pub fn is_empty(&self) -> (r: bool)
        ensures
            r == (self@.pairs.len() == 0),
    {
        proof {
            self.lemma_shape();
        }
        self.pairs.len() == 0
    }

    /// The number of pairs in the list.
    pub fn len(&self) -> (r: usize)
        ensures
            r == self@.pairs.len(),
    {
        proof {
            self.lemma_shape();
        }
        self.pairs.len()
    }

    /// The options the list was created with.
    pub fn flags(&self) -> (r: NvFlag)
        ensures
            r == self@.flags,
    {
        proof {
            self.lemma_shape();
        }
        self.flags
    }

    /// The error code the list has accumulated (0 for none).
    pub fn error(&self) -> (r: i32)
        ensures
            r == self@.error,
    {
        proof {
            self.lemma_shape();
        }
        self.error
    }

    /// Put the list into an error state. Fails with `AlreadySet`, changing
    /// nothing, when an error is already pending; a code of 0 sets nothing.
    pub fn set_error(&mut self, error: i32) -> (r: NvResult<()>)
        ensures
            set_error_outcome(old(self)@, final(self)@, error, r),
    {
        proof {
            self.lemma_shape();
        }
        if self.error != 0 {
            Err(NvError::AlreadySet)
        } else {
            self.error = error;
            proof {
                assert(self@.pairs =~= old(self)@.pairs);
            }
            Ok(())
        }
    }

    fn check_if_error(&self) -> (r: NvResult<()>)
        ensures
            r == (if self@.error == 0 {
                Ok::<(), NvError>(())
            } else {
                Err(NvError::NativeError(self@.error))
            }),
    {
        proof {
            self.lemma_shape();
        }
        if self.error == 0 {
            Ok(())
        } else {
            Err(NvError::NativeError(self.error))
        }
    }

    fn name_matches(&self, name: &str, key: &String, other: &String) -> (r: bool)
        requires
            key@ == name@,
        ensures
            r == names_match(self.flags, name@, other@),
    {
        match self.flags {
            NvFlag::IgnoreCase | NvFlag::Both => same_bytes_ignoring_case(
                name.as_bytes(),
                other.as_str().as_bytes(),
            ),
            _ => *key == *other,
        }
    }

    fn find(&self, name: &str, ty: NvType) -> (r: Option<usize>)
        ensures
            match r {
                Some(i) => self@.first_at(name@, ty, i as int),
                None => !self@.contains(name@, ty),
            },
    {
        let key = name.to_owned();
        let mut i: usize = 0;
        proof {
            self.lemma_shape();
        }
        while i < self.pairs.len()
            invariant
                i <= self.pairs.len(),
                key@ == name@,
                self@.pairs.len() == self.pairs.len(),
                self@.flags == self.flags,
                forall|j: int| 0 <= j < i ==> !self@.matches_at(name@, ty, j),
            decreases self.pairs.len() - i,
        {
            let p = &self.pairs[i];
            proof {
                self.lemma_pair(i as int);
            }
            if self.name_matches(name, &key, &p.name) && (matches!(ty, NvType::Any)
                || data_type(&p.data) == ty) {
                return Some(i);
            }
            i = i + 1;
        }
        None
    }

    proof fn lemma_first_unique(m: ListModel, name: Seq<char>, ty: NvType, i: int)
        requires
            m.first_at(name, ty, i),
        ensures
            m.contains(name, ty),
            (choose|k: int| m.first_at(name, ty, k)) == i,
            m.lookup(name, ty) == Some(m.pairs[i].1),
    {
        let k = choose|k: int| m.first_at(name, ty, k);
        assert(m.first_at(name, ty, k));
        if k < i {
            assert(!m.matches_at(name, ty, k));
        } else if k > i {
            assert(!m.matches_at(name, ty, i));
        }
    }

    fn add_data(&mut self, name: &str, data: NvData) -> (r: NvResult<()>)
        ensures
            insert_effect(old(self)@, final(self)@, name@, data_model(&data), 0, r),
    {
        proof {
            self.lemma_shape();
        }
        if self.error != 0 {
            return Err(NvError::NativeError(self.error));
        }
        let allow = match self.flags {
            NvFlag::NoUnique | NvFlag::Both => true,
            _ => false,
        };
        if !allow {
            match self.find(name, NvType::Any) {
                Some(_) => {
                    let code = code_exists();
                    self.error = code;
                    proof {
                        assert(self@.pairs =~= old(self)@.pairs);
                    }
                    return Err(NvError::NativeError(code));
                },
                None => {},
            }
        }
        let ghost d = data_model(&data);
        self.pairs.push(NvPair { name: name.to_owned(), data });
        proof {
            assert(self@.pairs =~= old(self)@.pairs.push((name@, d)));
        }
        Ok(())
    }

    fn take_error(&mut self, carried: i32) -> (r: NvResult<()>)
        requires
            old(self)@.error == 0,
            carried != 0,
        ensures
            final(self)@ == (ListModel { error: carried, ..old(self)@ }),
            r == Err::<(), NvError>(NvError::NativeError(carried)),
    {
        self.error = carried;
        proof {
            assert(self@.pairs =~= old(self)@.pairs);
        }
        Err(NvError::NativeError(carried))
    }
}

fn copy_strings(v: &Vec<String>) -> (r: Vec<String>)
    ensures
        r@.len() == v@.len(),
        forall|i: int| 0 <= i < v@.len() ==> r@[i]@ == v@[i]@,
{
    let mut r: Vec<String> = Vec::new();
    let mut i: usize = 0;
    while i < v.len()
        invariant
            i <= v@.len(),
            r@.len() == i,
            forall|j: int| 0 <= j < i ==> r@[j]@ == v@[j]@,
        decreases v@.len() - i,
    {
        r.push(v[i].clone());
        i = i + 1;
    }
    r
}

fn copy_lists(v: &Vec<NvList>) -> (r: Vec<NvList>)
    ensures
        r@.len() == v@.len(),
        forall|i: int| 0 <= i < v@.len() ==> r@[i]@ == v@[i]@,
    decreases v, 0nat,
{
    let mut r: Vec<NvList> = Vec::new();
    let mut i: usize = 0;
    while i < v.len()
        invariant
            i <= v@.len(),
            r@.len() == i,
            forall|j: int| 0 <= j < i ==> r@[j]@ == v@[j]@,
        decreases v@.len() - i,
    {
        proof {
            assert(decreases_to!(v => v@[i as int]));
        }
        r.push(v[i].deep_copy());
        i = i + 1;
    }
    r
}

fn copy_data(d: &NvData) -> (r: NvData)
    ensures
        data_model(&r) == data_model(d),
    decreases d, 0nat,
{
    match d {
        NvData::Null => NvData::Null,
        NvData::Bool(b) => NvData::Bool(*b),
        NvData::Number(n) => NvData::Number(*n),
        NvData::String(s) => NvData::String(s.clone()),
        NvData::NvList(l) => NvData::NvList(l.deep_copy()),
        NvData::Descriptor(fd) => NvData::Descriptor(*fd),
        NvData::Binary(v) => {
            let c = v.clone();
            proof {
                assert(c@ =~= v@);
            }
            NvData::Binary(c)
        },
        NvData::BoolArray(v) => {
            let c = v.clone();
            proof {
                assert(c@ =~= v@);
            }
            NvData::BoolArray(c)
        },
        NvData::NumberArray(v) => {
            let c = v.clone();
            proof {
                assert(c@ =~= v@);
            }
            NvData::NumberArray(c)
        },
        NvData::StringArray(v) => {
            let c = copy_strings(v);
            let r = NvData::StringArray(c);
            proof {
                if let DataModel::StrArray(a) = data_model(&r) {
                    if let DataModel::StrArray(b) = data_model(d) {
                        assert(a =~= b);
                    }
                }
            }
            r
        },
        NvData::NvListArray(v) => {
            let c = copy_lists(v);
            let r = NvData::NvListArray(c);
            proof {
                if let DataModel::ListArray(a) = data_model(&r) {
                    if let DataModel::ListArray(b) = data_model(d) {
                        assert(a =~= b);
                    }
                }
            }
            r
        },
    }
}

impl NvList {
    fn deep_copy(&self) -> (r: NvList)
        ensures
            r@ == self@,
        decreases self, 1nat,
    {
        let mut pairs: Vec<NvPair> = Vec::new();
        let mut i: usize = 0;
        while i < self.pairs.len()
            invariant
                i <= self.pairs@.len(),
                pairs@.len() == i,
                forall|j: int|
                    0 <= j < i ==> pairs@[j].name@ == self.pairs@[j].name@ && data_model(
                        &pairs@[j].data,
                    ) == data_model(&self.pairs@[j].data),
            decreases self.pairs@.len() - i,
        {
            let p = &self.pairs[i];
            proof {
                assert(decreases_to!(self => self.pairs@[i as int].data));
            }
            pairs.push(NvPair { name: p.name.clone(), data: copy_data(&p.data) });
            i = i + 1;
        }
        let r = NvList { flags: self.flags, error: self.error, pairs };
        proof {
            assert(r@.pairs =~= self@.pairs);
        }
        r
    }
}

fn check_texts(values: &[&str]) -> (r: NvResult<()>)
    ensures
        r == texts_result(texts_view(values@)),
{
    let ghost ss = texts_view(values@);
    let mut i: usize = 0;
    while i < values.len()
        invariant
            i <= values@.len(),
            ss == texts_view(values@),
            forall|j: int| 0 <= j < i ==> valid_text(#[trigger] ss[j]),
        decreases values@.len() - i,
    {
        match check_text(values[i]) {
            Ok(()) => {},
            Err(e) => {
                proof {
                    reveal(texts_result);
                    let k = choose|k: int|
                        0 <= k < ss.len() && !valid_text(ss[k]) && forall|j: int|
                            0 <= j < k ==> valid_text(#[trigger] ss[j]);
                    assert(0 <= i < ss.len() && !valid_text(ss[i as int]));
                    if k < i {
                    } else if k > i {
                        assert(valid_text(ss[i as int]));
                    }
                }
                return Err(e);
            },
        }
        i = i + 1;
    }
    proof {
        reveal(texts_result);
    }
    Ok(())
}

fn first_carried_error(values: &[NvList]) -> (r: i32)
    ensures
        r == carried_error(lists_view(values@)),
{
    let ghost ls = lists_view(values@);
    let mut i: usize = 0;
    while i < values.len()
        invariant
            i <= values@.len(),
            ls == lists_view(values@),
            forall|j: int| 0 <= j < i ==> (#[trigger] ls[j]).error == 0,
        decreases values@.len() - i,
    {
        let e = values[i].error();
        if e != 0 {
            proof {
                reveal(carried_error);
                let k = choose|k: int|
                    0 <= k < ls.len() && ls[k].error != 0 && forall|j: int|
                        0 <= j < k ==> (#[trigger] ls[j]).error == 0;
                assert(0 <= i < ls.len() && ls[i as int].error != 0);
                if k < i {
                } else if k > i {
                    assert(ls[i as int].error == 0);
                }
            }
            return e;
        }
        i = i + 1;
    }
    proof {
        reveal(carried_error);
    }
    0
}

fn own_texts(values: &[&str]) -> (r: Vec<String>)
    ensures
        r@.len() == values@.len(),
        forall|i: int| 0 <= i < values@.len() ==> r@[i]@ == values@[i]@,
{
    let mut r: Vec<String> = Vec::new();
    let mut i: usize = 0;
    while i < values.len()
        invariant
            i <= values@.len(),
            r@.len() == i,
            forall|j: int| 0 <= j < i ==> r@[j]@ == values@[j]@,
        decreases values@.len() - i,
    {
        r.push(values[i].to_owned());
        i = i + 1;
    }
    r
}

fn copy_list_slice(values: &[NvList]) -> (r: Vec<NvList>)
    ensures
        r@.len() == values@.len(),
        forall|i: int| 0 <= i < values@.len() ==> r@[i]@ == values@[i]@,
{
    let mut r: Vec<NvList> = Vec::new();
    let mut i: usize = 0;
    while i < values.len()
        invariant
            i <= values@.len(),
            r@.len() == i,
            forall|j: int| 0 <= j < i ==> r@[j]@ == values@[j]@,
        decreases values@.len() - i,
    {
        r.push(values[i].deep_copy());
        i = i + 1;
    }
    r
}

impl NvList {
    /// Add a pair with no value.
    pub fn insert_null(&mut self, name: &str) -> (r: NvResult<()>)
        ensures
            add_outcome(old(self)@, final(self)@, name@, Ok(()), DataModel::Null, 0, r),
    {
        match check_text(name) {
            Ok(()) => {},
            Err(e) => return Err(e),
        }
        self.add_data(name, NvData::Null)
    }

    /// Add a number.
    pub fn insert_number(&mut self, name: &str, value: u64) -> (r: NvResult<()>)
        ensures
            add_outcome(old(self)@, final(self)@, name@, Ok(()), DataModel::Number(value), 0, r),
    {
        match check_text(name) {
            Ok(()) => {},
            Err(e) => return Err(e),
        }
        self.add_data(name, NvData::Number(value))
    }

    /// Add a `bool`.
    pub fn insert_bool(&mut self, name: &str, value: bool) -> (r: NvResult<()>)
        ensures
            add_outcome(old(self)@, final(self)@, name@, Ok(()), DataModel::Bool(value), 0, r),
    {
        match check_text(name) {
            Ok(()) => {},
            Err(e) => return Err(e),
        }
        self.add_data(name, NvData::Bool(value))
    }

    /// Add a string.
    pub fn insert_string(&mut self, name: &str, value: &str) -> (r: NvResult<()>)
        ensures
            add_outcome(
                old(self)@,
                final(self)@,
                name@,
                text_result(value@),
                DataModel::Str(value@),
                0,
                r,
            ),
    {
        match check_text(name) {
            Ok(()) => {},
            Err(e) => return Err(e),
        }
        match check_text(value) {
            Ok(()) => {},
            Err(e) => return Err(e),
        }
        self.add_data(name, NvData::String(value.to_owned()))
    }

    /// Add a file descriptor. The list records the descriptor's number; the
    /// caller keeps the descriptor open for as long as the list refers to it.
    pub fn insert_descriptor(&mut self, name: &str, value: i32) -> (r: NvResult<()>)
        ensures
            add_outcome(
                old(self)@,
                final(self)@,
                name@,
                Ok(()),
                DataModel::Descriptor(value),
                0,
                r,
            ),
    {
        match check_text(name) {
            Ok(()) => {},
            Err(e) => return Err(e),
        }
        self.add_data(name, NvData::Descriptor(value))
    }

    /// Add a copy of another list. A list with a pending error cannot be
    /// copied: its error passes to this list.
    pub fn insert_nvlist(&mut self, name: &str, value: &NvList) -> (r: NvResult<()>)
        ensures
            add_outcome(
                old(self)@,
                final(self)@,
                name@,
                Ok(()),
                DataModel::List(value@),
                value@.error,
                r,
            ),
    {
        match check_text(name) {
            Ok(()) => {},
            Err(e) => return Err(e),
        }
        proof {
            self.lemma_shape();
        }
        if self.error != 0 {
            return Err(NvError::NativeError(self.error));
        }
        let carried = value.error();
        if carried != 0 {
            return self.take_error(carried);
        }
        self.add_data(name, NvData::NvList(value.deep_copy()))
    }

    /// Add a byte buffer.
    pub fn insert_binary(&mut self, name: &str, value: &[u8]) -> (r: NvResult<()>)
        ensures
            add_outcome(old(self)@, final(self)@, name@, Ok(()), DataModel::Binary(value@), 0, r),
    {
        match check_text(name) {
            Ok(()) => {},
            Err(e) => return Err(e),
        }
        self.add_data(name, NvData::Binary(vstd::slice::slice_to_vec(value)))
    }

    /// Add an array of `bool` values.
    pub fn insert_bools(&mut self, name: &str, value: &[bool]) -> (r: NvResult<()>)
        ensures
            add_outcome(
                old(self)@,
                final(self)@,
                name@,
                Ok(()),
                DataModel::BoolArray(value@),
                0,
                r,
            ),
    {
        match check_text(name) {
            Ok(()) => {},
            Err(e) => return Err(e),
        }
        self.add_data(name, NvData::BoolArray(vstd::slice::slice_to_vec(value)))
    }

    /// Add an array of numbers.
    pub fn insert_numbers(&mut self, name: &str, value: &[u64]) -> (r: NvResult<()>)
        ensures
            add_outcome(
                old(self)@,
                final(self)@,
                name@,
                Ok(()),
                DataModel::NumberArray(value@),
                0,
                r,
            ),
    {
        match check_text(name) {
            Ok(()) => {},
            Err(e) => return Err(e),
        }
        self.add_data(name, NvData::NumberArray(vstd::slice::slice_to_vec(value)))
    }

    /// Add an array of strings.
    pub fn insert_strings(&mut self, name: &str, value: &[&str]) -> (r: NvResult<()>)
        ensures
            add_outcome(
                old(self)@,
                final(self)@,
                name@,
                texts_result(texts_view(value@)),
                DataModel::StrArray(texts_view(value@)),
                0,
                r,
            ),
    {
        match check_text(name) {
            Ok(()) => {},
            Err(e) => return Err(e),
        }
        match check_texts(value) {
            Ok(()) => {},
            Err(e) => return Err(e),
        }
        let owned = own_texts(value);
        let data = NvData::StringArray(owned);
        proof {
            if let DataModel::StrArray(a) = data_model(&data) {
                assert(a =~= texts_view(value@));
            }
        }
        self.add_data(name, data)
    }

    /// Add copies of several lists as one array. If one of them has a
    /// pending error, the first such error passes to this list.
    pub fn insert_nvlists(&mut self, name: &str, value: &[NvList]) -> (r: NvResult<()>)
        ensures
            add_outcome(
                old(self)@,
                final(self)@,
                name@,
                Ok(()),
                DataModel::ListArray(lists_view(value@)),
                carried_error(lists_view(value@)),
                r,
            ),
    {
        match check_text(name) {
            Ok(()) => {},
            Err(e) => return Err(e),
        }
        proof {
            self.lemma_shape();
        }
        if self.error != 0 {
            return Err(NvError::NativeError(self.error));
        }
        let carried = first_carried_error(value);
        if carried != 0 {
            return self.take_error(carried);
        }
        let copies = copy_list_slice(value);
        let data = NvData::NvListArray(copies);
        proof {
            if let DataModel::ListArray(a) = data_model(&data) {
                assert(a =~= lists_view(value@));
            }
        }
        self.add_data(name, data)
    }
}

impl NvList {
    /// Whether a pair of the given name exists.
    pub fn contains_key(&self, name: &str) -> (r: NvResult<bool>)
        ensures
            r == read_result(name@, self@.contains(name@, NvType::Any)),
    {
        match check_text(name) {
            Ok(()) => {},
            Err(e) => return Err(e),
        }
        Ok(self.find(name, NvType::Any).is_some())
    }

    /// Whether a pair of the given name and type exists.
    pub fn contains_key_with_type(&self, name: &str, ty: NvType) -> (r: NvResult<bool>)
        ensures
            r == read_result(name@, self@.contains(name@, ty)),
    {
        match check_text(name) {
            Ok(()) => {},
            Err(e) => return Err(e),
        }
        Ok(self.find(name, ty).is_some())
    }

    fn locate(&self, name: &str, ty: NvType) -> (r: NvResult<Option<usize>>)
        ensures
            match r {
                Ok(Some(i)) => valid_text(name@) && self@.first_at(name@, ty, i as int)
                    && self@.lookup(name@, ty) == Some(self@.pairs[i as int].1) && i
                    < self.pairs.len() && self@.pairs[i as int] == (
                    self.pairs@[i as int].name@,
                    data_model(&self.pairs@[i as int].data),
                ),
                Ok(None) => valid_text(name@) && self@.lookup(name@, ty) is None,
                Err(e) => !valid_text(name@) && text_result(name@) == Err::<(), NvError>(e),
            },
    {
        match check_text(name) {
            Ok(()) => {},
            Err(e) => return Err(e),
        }
        match self.find(name, ty) {
            Some(i) => {
                proof {
                    Self::lemma_first_unique(self@, name@, ty, i as int);
                    self.lemma_pair(i as int);
                }
                Ok(Some(i))
            },
            None => Ok(None),
        }
    }

    /// The first byte buffer stored under the given name, borrowed from the
    /// list.
    pub fn get_binary(&self, name: &str) -> (r: NvResult<Option<&[u8]>>)
        ensures
            read_outcome(
                name@,
                self@.lookup(name@, NvType::Binary),
                r,
                |v: &[u8]| DataModel::Binary(v@),
            ),
    {
        match self.locate(name, NvType::Binary) {
            Err(e) => Err(e),
            Ok(None) => Ok(None),
            Ok(Some(i)) => match &self.pairs[i].data {
                NvData::Binary(v) => Ok(Some(v.as_slice())),
                _ => Ok(None),
            },
        }
    }

    /// The first `bool` stored under the given name.
    pub fn get_bool(&self, name: &str) -> (r: NvResult<Option<bool>>)
        ensures
            read_outcome(name@, self@.lookup(name@, NvType::Bool), r, |v: bool| DataModel::Bool(v)),
    {
        match self.locate(name, NvType::Bool) {
            Err(e) => Err(e),
            Ok(None) => Ok(None),
            Ok(Some(i)) => match &self.pairs[i].data {
                NvData::Bool(v) => Ok(Some(*v)),
                _ => Ok(None),
            },
        }
    }

    /// The first number stored under the given name.
    pub fn get_number(&self, name: &str) -> (r: NvResult<Option<u64>>)
        ensures
            read_outcome(
                name@,
                self@.lookup(name@, NvType::Number),
                r,
                |v: u64| DataModel::Number(v),
            ),
    {
        match self.locate(name, NvType::Number) {
            Err(e) => Err(e),
            Ok(None) => Ok(None),
            Ok(Some(i)) => match &self.pairs[i].data {
                NvData::Number(v) => Ok(Some(*v)),
                _ => Ok(None),
            },
        }
    }

    /// The first string stored under the given name.
    pub fn get_string(&self, name: &str) -> (r: NvResult<Option<String>>)
        ensures
            read_outcome(
                name@,
                self@.lookup(name@, NvType::String),
                r,
                |v: String| DataModel::Str(v@),
            ),
    {
        match self.locate(name, NvType::String) {
            Err(e) => Err(e),
            Ok(None) => Ok(None),
            Ok(Some(i)) => match &self.pairs[i].data {
                NvData::String(v) => Ok(Some(v.clone())),
                _ => Ok(None),
            },
        }
    }

    /// A copy of the first list stored under the given name.
    pub fn get_nvlist(&self, name: &str) -> (r: NvResult<Option<NvList>>)
        ensures
            read_outcome(
                name@,
                self@.lookup(name@, NvType::NvList),
                r,
                |v: NvList| DataModel::List(v@),
            ),
    {
        match self.locate(name, NvType::NvList) {
            Err(e) => Err(e),
            Ok(None) => Ok(None),
            Ok(Some(i)) => match &self.pairs[i].data {
                NvData::NvList(v) => Ok(Some(v.deep_copy())),
                _ => Ok(None),
            },
        }
    }

    /// The first array of `bool` values stored under the given name, borrowed from the
    /// list.
    pub fn get_bools(&self, name: &str) -> (r: NvResult<Option<&[bool]>>)
        ensures
            read_outcome(
                name@,
                self@.lookup(name@, NvType::BoolArray),
                r,
                |v: &[bool]| DataModel::BoolArray(v@),
            ),
    {
        match self.locate(name, NvType::BoolArray) {
            Err(e) => Err(e),
            Ok(None) => Ok(None),
            Ok(Some(i)) => match &self.pairs[i].data {
                NvData::BoolArray(v) => Ok(Some(v.as_slice())),
                _ => Ok(None),
            },
        }
    }

    /// The first array of numbers stored under the given name, borrowed from the
    /// list.
    pub fn get_numbers(&self, name: &str) -> (r: NvResult<Option<&[u64]>>)
        ensures
            read_outcome(
                name@,
                self@.lookup(name@, NvType::NumberArray),
                r,
                |v: &[u64]| DataModel::NumberArray(v@),
            ),
    {
        match self.locate(name, NvType::NumberArray) {
            Err(e) => Err(e),
            Ok(None) => Ok(None),
            Ok(Some(i)) => match &self.pairs[i].data {
                NvData::NumberArray(v) => Ok(Some(v.as_slice())),
                _ => Ok(None),
            },
        }
    }

    /// The first array of strings stored under the given name.
    pub fn get_strings(&self, name: &str) -> (r: NvResult<Option<Vec<String>>>)
        ensures
            read_outcome(
                name@,
                self@.lookup(name@, NvType::StringArray),
                r,
                |v: Vec<String>| DataModel::StrArray(strings_view(v@)),
            ),
    {
        match self.locate(name, NvType::StringArray) {
            Err(e) => Err(e),
            Ok(None) => Ok(None),
            Ok(Some(i)) => match &self.pairs[i].data {
                NvData::StringArray(v) => {
                    let c = copy_strings(v);
                    proof {
                        if let DataModel::StrArray(a) = data_model(&self.pairs@[i as int].data) {
                            assert(a =~= strings_view(c@));
                        }
                    }
                    Ok(Some(c))
                },
                _ => Ok(None),
            },
        }
    }

    /// Copies of the first array of lists stored under the given name.
    pub fn get_nvlists(&self, name: &str) -> (r: NvResult<Option<Vec<NvList>>>)
        ensures
            read_outcome(
                name@,
                self@.lookup(name@, NvType::NvListArray),
                r,
                |v: Vec<NvList>| DataModel::ListArray(lists_view(v@)),
            ),
    {
        match self.locate(name, NvType::NvListArray) {
            Err(e) => Err(e),
            Ok(None) => Ok(None),
            Ok(Some(i)) => match &self.pairs[i].data {
                NvData::NvListArray(v) => {
                    let c = copy_lists(v);
                    proof {
                        if let DataModel::ListArray(a) = data_model(&self.pairs@[i as int].data) {
                            assert(a =~= lists_view(c@));
                        }
                    }
                    Ok(Some(c))
                },
                _ => Ok(None),
            },
        }
    }

    /// Remove the first pair of the given name. A missing name is no
    /// failure; a pending error of the list is returned either way.
    pub fn remove(&mut self, name: &str) -> (r: NvResult<()>)
        ensures
            remove_outcome(old(self)@, final(self)@, name@, NvType::Any, r),
    {
        self.remove_with_type(name, NvType::Any)
    }

    /// Remove the first pair of the given name and type. A missing pair is
    /// no failure; a pending error of the list is returned either way.
    pub fn remove_with_type(&mut self, name: &str, ty: NvType) -> (r: NvResult<()>)
        ensures
            remove_outcome(old(self)@, final(self)@, name@, ty, r),
    {
        match self.locate(name, ty) {
            Err(e) => return Err(e),
            Ok(None) => {},
            Ok(Some(i)) => {
                proof {
                    Self::lemma_first_unique(self@, name@, ty, i as int);
                }
                let _ = self.pairs.remove(i);
                proof {
                    assert(self@.pairs =~= old(self)@.pairs.remove(i as int));
                }
            },
        }
        self.check_if_error()
    }
}

/// A new, empty list with no options.
impl Default for NvList {
    fn default() -> (r: NvList)
        ensures
            r@ == (ListModel { flags: NvFlag::NoFlags, error: 0, pairs: Seq::empty() }),
    {
        let l = NvList { flags: NvFlag::NoFlags, error: 0, pairs: Vec::new() };
        proof {
            assert(l@.pairs =~= Seq::empty());
        }
        l
    }
}

impl Clone for NvList {
    /// A deep copy: the copy holds copies of all values, nested lists too.
    fn clone(&self) -> (r: Self)
        ensures
            r@ == self@,
    {
        self.deep_copy()
    }
}

/// A value that can insert itself into a list under a name, so that one
/// generic call inserts any supported type.
pub trait NvTypeOp {
    /// The value that an insertion adds.
    spec fn nv_model(&self) -> DataModel;

    /// Whether the value converts for storage (`Err` for a string with a NUL).
    spec fn nv_check(&self) -> NvResult<()>;

    /// The pending error that a list value passes on (0 for none).
    spec fn nv_carried(&self) -> i32;

    /// Add `self` to `list` under `name`.
    fn add_to_list(&self, list: &mut NvList, name: &str) -> (r: NvResult<()>)
        ensures
            add_outcome(
                old(list)@,
                final(list)@,
                name@,
                self.nv_check(),
                self.nv_model(),
                self.nv_carried(),
                r,
            ),
    ;
}

impl NvTypeOp for bool {
    open spec fn nv_model(&self) -> DataModel {
        DataModel::Bool(*self)
    }

    open spec fn nv_check(&self) -> NvResult<()> {
        Ok(())
    }

    open spec fn nv_carried(&self) -> i32 {
        0
    }

    fn add_to_list(&self, list: &mut NvList, name: &str) -> (r: NvResult<()>) {
        list.insert_bool(name, *self)
    }
}

impl NvTypeOp for u8 {
    open spec fn nv_model(&self) -> DataModel {
        DataModel::Number(*self as u64)
    }

    open spec fn nv_check(&self) -> NvResult<()> {
        Ok(())
    }

    open spec fn nv_carried(&self) -> i32 {
        0
    }

    fn add_to_list(&self, list: &mut NvList, name: &str) -> (r: NvResult<()>) {
        list.insert_number(name, *self as u64)
    }
}

impl NvTypeOp for u16 {
    open spec fn nv_model(&self) -> DataModel {
        DataModel::Number(*self as u64)
    }

    open spec fn nv_check(&self) -> NvResult<()> {
        Ok(())
    }

    open spec fn nv_carried(&self) -> i32 {
        0
    }

    fn add_to_list(&self, list: &mut NvList, name: &str) -> (r: NvResult<()>) {
        list.insert_number(name, *self as u64)
    }
}

impl NvTypeOp for u32 {
    open spec fn nv_model(&self) -> DataModel {
        DataModel::Number(*self as u64)
    }

    open spec fn nv_check(&self) -> NvResult<()> {
        Ok(())
    }

    open spec fn nv_carried(&self) -> i32 {
        0
    }

    fn add_to_list(&self, list: &mut NvList, name: &str) -> (r: NvResult<()>) {
        list.insert_number(name, *self as u64)
    }
}

impl NvTypeOp for u64 {
    open spec fn nv_model(&self) -> DataModel {
        DataModel::Number(*self as u64)
    }

    open spec fn nv_check(&self) -> NvResult<()> {
        Ok(())
    }

    open spec fn nv_carried(&self) -> i32 {
        0
    }

    fn add_to_list(&self, list: &mut NvList, name: &str) -> (r: NvResult<()>) {
        list.insert_number(name, *self as u64)
    }
}

impl<'a> NvTypeOp for &'a str {
    open spec fn nv_model(&self) -> DataModel {
        DataModel::Str(self@)
    }

    open spec fn nv_check(&self) -> NvResult<()> {
        text_result(self@)
    }

    open spec fn nv_carried(&self) -> i32 {
        0
    }

    fn add_to_list(&self, list: &mut NvList, name: &str) -> (r: NvResult<()>) {
        list.insert_string(name, *self)
    }
}

impl<'a> NvTypeOp for &'a [bool] {
    open spec fn nv_model(&self) -> DataModel {
        DataModel::BoolArray(self@)
    }

    open spec fn nv_check(&self) -> NvResult<()> {
        Ok(())
    }

    open spec fn nv_carried(&self) -> i32 {
        0
    }

    fn add_to_list(&self, list: &mut NvList, name: &str) -> (r: NvResult<()>) {
        list.insert_bools(name, *self)
    }
}

impl<'a> NvTypeOp for &'a [u64] {
    open spec fn nv_model(&self) -> DataModel {
        DataModel::NumberArray(self@)
    }

    open spec fn nv_check(&self) -> NvResult<()> {
        Ok(())
    }

    open spec fn nv_carried(&self) -> i32 {
        0
    }

    fn add_to_list(&self, list: &mut NvList, name: &str) -> (r: NvResult<()>) {
        list.insert_numbers(name, *self)
    }
}

impl NvTypeOp for NvList {
    open spec fn nv_model(&self) -> DataModel {
        DataModel::List(self@)
    }

    open spec fn nv_check(&self) -> NvResult<()> {
        Ok(())
    }

    open spec fn nv_carried(&self) -> i32 {
        self@.error
    }

    fn add_to_list(&self, list: &mut NvList, name: &str) -> (r: NvResult<()>) {
        list.insert_nvlist(name, self)
    }
}

/// `Some` inserts its content; `None` inserts a pair with no value.
impl<T: NvTypeOp> NvTypeOp for Option<T> {
    open spec fn nv_model(&self) -> DataModel {
        match self {
            Some(v) => v.nv_model(),
            None => DataModel::Null,
        }
    }

    open spec fn nv_check(&self) -> NvResult<()> {
        match self {
            Some(v) => v.nv_check(),
            None => Ok(()),
        }
    }

    open spec fn nv_carried(&self) -> i32 {
        match self {
            Some(v) => v.nv_carried(),
            None => 0,
        }
    }

    fn add_to_list(&self, list: &mut NvList, name: &str) -> (r: NvResult<()>) {
        match self {
            Some(v) => v.add_to_list(list, name),
            None => list.insert_null(name),
        }
    }
}

impl NvList {
    /// Add any supported value: a shorthand for the typed insertions.
    pub fn insert<T: NvTypeOp>(&mut self, name: &str, value: T) -> (r: NvResult<()>)
        ensures
            add_outcome(
                old(self)@,
                final(self)@,
                name@,
                value.nv_check(),
                value.nv_model(),
                value.nv_carried(),
                r,
            ),
    {
        value.add_to_list(self, name)
    }
}

proof fn lemma_some_first(m: ListModel, name: Seq<char>, ty: NvType, j: int)
    requires
        m.matches_at(name, ty, j),
    ensures
        m.contains(name, ty),
    decreases j,
{
    if forall|k: int| 0 <= k < j ==> !m.matches_at(name, ty, k) {
        assert(m.first_at(name, ty, j));
    } else {
        let k = choose|k: int| 0 <= k < j && m.matches_at(name, ty, k);
        lemma_some_first(m, name, ty, k);
    }
}

/// Reading back what was inserted: once an insertion of `(name, d)` has
/// succeeded on a list that held no pair of that name and type, a lookup of
/// that name and type gives `d`.
pub proof fn lemma_insert_then_lookup(
    old: ListModel,
    new: ListModel,
    name: Seq<char>,
    check: NvResult<()>,
    d: DataModel,
    carried: i32,
    r: NvResult<()>,
)
    requires
        add_outcome(old, new, name, check, d, carried, r),
        r is Ok,
        !old.contains(name, type_of(d)),
    ensures
        new.lookup(name, type_of(d)) == Some(d),
{
    let ty = type_of(d);
    let i = old.pairs.len() as int;
    assert(new == old.push(name, d));
    assert(new.matches_at(name, ty, i));
    assert forall|j: int| 0 <= j < i implies !new.matches_at(name, ty, j) by {
        assert(new.pairs[j] == old.pairs[j]);
        if new.matches_at(name, ty, j) {
            assert(old.matches_at(name, ty, j));
            lemma_some_first(old, name, ty, j);
        }
    }
    NvList::lemma_first_unique(new, name, ty, i);
}

/// A descriptor blocks packing: once a descriptor has been inserted, the
/// list holds one, and its pending error is still 0.
pub proof fn lemma_descriptor_blocks_pack(
    old: ListModel,
    new: ListModel,
    name: Seq<char>,
    fd: i32,
    r: NvResult<()>,
)
    requires
        add_outcome(old, new, name, Ok(()), DataModel::Descriptor(fd), 0, r),
        r is Ok,
    ensures
        new.error == 0,
        has_descriptor(new),
{
    let n = old.pairs.len() as int;
    assert(new == old.push(name, DataModel::Descriptor(fd)));
    assert(new.pairs[n].1 == DataModel::Descriptor(fd));
    assert(data_has_descriptor(new.pairs[n].1));
    assert(pairs_have_descriptor(new.pairs, n + 1));
}

/// Setting an error twice: on a list without error, setting a non-zero code
/// succeeds and stores it; setting another code afterwards fails with
/// `AlreadySet` and leaves the stored code as it was.
pub proof fn lemma_set_error_twice(
    m0: ListModel,
    m1: ListModel,
    m2: ListModel,
    first: i32,
    second: i32,
    r1: NvResult<()>,
    r2: NvResult<()>,
)
    requires
        m0.error == 0,
        first != 0,
        set_error_outcome(m0, m1, first, r1),
        set_error_outcome(m1, m2, second, r2),
    ensures
        r1 is Ok,
        m1.error == first,
        r2 == Err::<(), NvError>(NvError::AlreadySet),
        m2 == m1,
{
}

} // verus!
