use libnv::libnv::{BorrowedPackedNvList, NvFlag, NvList, NvType, PackedNvList};
use libnv::NvError;

#[test]
fn libnv_ok() {
    let nv = NvList::new(NvFlag::NoFlags).unwrap();
    let _packed = nv.pack().unwrap();
}

#[test]
fn file_descriptors() {
    let mut nv = NvList::new(NvFlag::NoFlags).unwrap();
    nv.insert_descriptor("foo", 1).unwrap();
    assert!(matches!(nv.pack().unwrap_err(), NvError::OperationNotSupported));
}

#[test]
fn bad_flags() {
    let mut nv = NvList::new(NvFlag::NoFlags).unwrap();
    nv.insert_number("Answer", 42u64).unwrap();
    let packed = nv.pack().unwrap();
    assert!(matches!(packed.unpack(NvFlag::IgnoreCase).unwrap_err(), NvError::Io(_)));
}

#[test]
fn borrowed() {
    let buf = {
        let mut nv = NvList::new(NvFlag::NoFlags).unwrap();
        nv.insert_number("Answer", 42u64).unwrap();
        let packed = nv.pack().unwrap();
        packed.as_bytes().to_vec()
    };

    let borrowed = BorrowedPackedNvList::from_raw(&buf);

    let nv2 = borrowed.unpack(NvFlag::NoFlags).unwrap();
    assert_eq!(nv2.get_number("Answer").unwrap(), Some(42u64));
}

#[test]
fn corruption() {
    let buf = [42u8; 100];
    let packed = PackedNvList::from_vec(buf.to_vec());
    assert!(matches!(packed.unpack(NvFlag::NoFlags).unwrap_err(), NvError::Io(_)));
}

#[test]
fn ok() {
    let mut nv = NvList::new(NvFlag::NoFlags).unwrap();
    nv.insert_number("Answer", 42u64).unwrap();
    let packed = nv.pack().unwrap();
    let nv2 = packed.unpack(NvFlag::NoFlags).unwrap();
    assert_eq!(nv2.get_number("Answer").unwrap(), Some(42u64));
}

#[test]
fn important_year_end_to_end() {
    let mut list = NvList::new(NvFlag::Both).unwrap();
    assert!(list.insert_number("Year", 1776u64).is_ok());
    assert!(list.contains_key("Year").unwrap());
    assert_eq!(list.get_number("Year").unwrap(), Some(1776));
}

#[test]
fn round_trip_every_type() {
    let mut list = NvList::new(NvFlag::NoFlags).unwrap();
    list.insert_null("null").unwrap();
    list.insert_bool("bool", true).unwrap();
    list.insert_number("number", u64::MAX).unwrap();
    list.insert_string("string", "text").unwrap();
    list.insert_binary("binary", &[0, 1, 255]).unwrap();
    list.insert_bools("bools", &[true, false, true]).unwrap();
    list.insert_numbers("numbers", &[1, 7, 7, 6]).unwrap();
    list.insert_strings("strings", &["Hello", "World!"]).unwrap();
    assert!(list.contains_key_with_type("null", NvType::Null).unwrap());
    assert_eq!(list.get_bool("bool").unwrap(), Some(true));
    assert_eq!(list.get_number("number").unwrap(), Some(u64::MAX));
    assert_eq!(list.get_string("string").unwrap(), Some(String::from("text")));
    assert_eq!(list.get_binary("binary").unwrap().unwrap(), vec![0u8, 1, 255]);
    assert_eq!(list.get_bools("bools").unwrap().unwrap(), vec![true, false, true]);
    assert_eq!(list.get_numbers("numbers").unwrap().unwrap(), vec![1u64, 7, 7, 6]);
    assert_eq!(
        list.get_strings("strings").unwrap().unwrap(),
        vec![String::from("Hello"), String::from("World!")]
    );
    assert_eq!(list.len(), 8);
}

#[test]
fn pack_unpack_keeps_pairs() {
    let mut inner = NvList::new(NvFlag::IgnoreCase).unwrap();
    inner.insert_number("Important year", 42u64).unwrap();
    let mut list = NvList::new(NvFlag::NoUnique).unwrap();
    list.insert_string("dup", "first").unwrap();
    list.insert_string("dup", "second").unwrap();
    list.insert_nvlist("inner", &inner).unwrap();
    list.insert_nvlists("lists", &[inner.clone(), NvList::new(NvFlag::NoFlags).unwrap()]).unwrap();
    list.insert_strings("strings", &["a", ""]).unwrap();
    list.insert_bools("bools", &[]).unwrap();
    let packed = list.pack().unwrap();
    assert_eq!(packed.len(), packed.as_bytes().len());
    let back = packed.unpack(NvFlag::NoUnique).unwrap();
    assert_eq!(back.len(), list.len());
    assert_eq!(back.get_string("dup").unwrap(), Some(String::from("first")));
    let got = back.get_nvlist("inner").unwrap().unwrap();
    assert_eq!(got.flags(), NvFlag::IgnoreCase);
    assert_eq!(got.get_number("IMPORTANT YEAR").unwrap(), Some(42));
    let lists = back.get_nvlists("lists").unwrap().unwrap();
    assert_eq!(lists.len(), 2);
    assert_eq!(lists[1].flags(), NvFlag::NoFlags);
    assert_eq!(back.get_strings("strings").unwrap().unwrap(), vec![String::from("a"), String::new()]);
    assert_eq!(back.get_bools("bools").unwrap().unwrap(), Vec::<bool>::new());
    assert_eq!(back.pack().unwrap().as_bytes(), packed.as_bytes());
}

#[test]
fn packed_layout() {
    let mut list = NvList::new(NvFlag::IgnoreCase).unwrap();
    list.insert_bool("b", true).unwrap();
    let packed = list.pack().unwrap();
    let expected: Vec<u8> = vec![
        110, 1, 1, 0, 0, 0, 0, 0, 0, 0, // magic, flags, one pair
        2, 1, 0, 0, 0, 0, 0, 0, 0, b'b', // tag, name
        1, // value
    ];
    assert_eq!(packed.as_bytes(), &expected[..]);
}

#[test]
fn unpack_rejects_trailing_bytes_and_bad_tags() {
    let list = NvList::new(NvFlag::NoFlags).unwrap();
    let mut bytes = list.pack().unwrap().as_bytes().to_vec();
    bytes.push(0);
    assert!(matches!(BorrowedPackedNvList::from_raw(&bytes).unpack(NvFlag::NoFlags), Err(NvError::Io(_))));
    let empty: [u8; 0] = [];
    assert!(matches!(BorrowedPackedNvList::from_raw(&empty).unpack(NvFlag::NoFlags), Err(NvError::Io(_))));
    let descriptor_pair: Vec<u8> = vec![110, 0, 1, 0, 0, 0, 0, 0, 0, 0, 6, 0, 0, 0, 0, 0, 0, 0, 0];
    assert!(matches!(BorrowedPackedNvList::from_raw(&descriptor_pair).unpack(NvFlag::NoFlags), Err(NvError::Io(_))));
}

#[test]
fn contains_key_absent_and_embedded_nul() {
    let list = NvList::new(NvFlag::NoFlags).unwrap();
    assert_eq!(list.contains_key("missing"), Ok(false));
    assert_eq!(list.contains_key("a\0b"), Err(NvError::InvalidString(1)));
}

#[test]
fn invalid_names_and_values_change_nothing() {
    let mut list = NvList::new(NvFlag::NoFlags).unwrap();
    assert_eq!(list.insert_number("\0", 1), Err(NvError::InvalidString(0)));
    assert_eq!(list.insert_string("ok", "ab\0"), Err(NvError::InvalidString(2)));
    assert_eq!(list.insert_strings("ok", &["fine", "x\0"]), Err(NvError::InvalidString(1)));
    assert!(list.is_empty());
    assert_eq!(list.error(), 0);
}

#[test]
fn set_error_twice() {
    let mut list = NvList::new(NvFlag::Both).unwrap();
    assert_eq!(list.error(), 0);
    list.set_error(0x16).unwrap();
    assert_eq!(list.error(), 0x16);
    assert_eq!(list.set_error(5), Err(NvError::AlreadySet));
    assert_eq!(list.error(), 0x16);
    assert_eq!(list.insert_bool("x", true), Err(NvError::NativeError(0x16)));
    assert!(matches!(list.pack(), Err(NvError::NativeError(0x16))));
}

#[test]
fn duplicate_name_sets_sticky_error() {
    let mut list = NvList::new(NvFlag::NoFlags).unwrap();
    list.insert_number("n", 1).unwrap();
    let err = list.insert_number("n", 2).unwrap_err();
    let code = list.error();
    assert!(code > 0);
    assert_eq!(err, NvError::NativeError(code));
    assert_eq!(list.insert_bool("other", true), Err(NvError::NativeError(code)));
    assert_eq!(list.get_number("n").unwrap(), Some(1));
    assert_eq!(list.remove("n"), Err(NvError::NativeError(code)));
    assert!(list.is_empty());
}

#[test]
fn ignore_case_lookups() {
    let mut list = NvList::new(NvFlag::IgnoreCase).unwrap();
    list.insert_number("Year", 1776).unwrap();
    assert!(list.contains_key("yEAR").unwrap());
    assert!(list.insert_number("YEAR", 1).is_err());
    let mut exact = NvList::new(NvFlag::NoFlags).unwrap();
    exact.insert_number("Year", 1776).unwrap();
    assert!(!exact.contains_key("year").unwrap());
}

#[test]
fn typed_lookup_and_removal() {
    let mut list = NvList::new(NvFlag::NoUnique).unwrap();
    list.insert_bool("k", false).unwrap();
    list.insert_number("k", 9).unwrap();
    assert!(!list.contains_key_with_type("k", NvType::String).unwrap());
    assert_eq!(list.get_number("k").unwrap(), Some(9));
    list.remove_with_type("k", NvType::Number).unwrap();
    assert_eq!(list.get_number("k").unwrap(), None);
    assert_eq!(list.get_bool("k").unwrap(), Some(false));
    list.remove("missing").unwrap();
    list.remove("k").unwrap();
    assert!(list.is_empty());
}

#[test]
fn nested_list_with_error_passes_it_on() {
    let mut inner = NvList::new(NvFlag::NoFlags).unwrap();
    inner.set_error(7).unwrap();
    let mut list = NvList::new(NvFlag::NoFlags).unwrap();
    assert_eq!(list.insert_nvlist("inner", &inner), Err(NvError::NativeError(7)));
    assert_eq!(list.error(), 7);
}

#[test]
fn generic_insert_and_option() {
    let mut list = NvList::default();
    let none: Option<u64> = None;
    list.insert("Important year", 1776u32).unwrap();
    list.insert("not important year", none).unwrap();
    list.insert("flags", &[true, false][..]).unwrap();
    let copy = list.clone();
    list.insert("copy", copy).unwrap();
    assert_eq!(list.get_number("Important year").unwrap(), Some(1776));
    assert!(list.contains_key_with_type("not important year", NvType::Null).unwrap());
    let copy = list.get_nvlist("copy").unwrap().unwrap();
    assert_eq!(copy.len(), 3);
}

#[test]
fn clone_is_deep() {
    let mut list = NvList::new(NvFlag::IgnoreCase).unwrap();
    list.insert_number("a", 1).unwrap();
    let mut copy = list.clone();
    copy.insert_number("b", 2).unwrap();
    copy.remove("a").unwrap();
    assert_eq!(copy.flags(), NvFlag::IgnoreCase);
    assert_eq!(list.get_number("a").unwrap(), Some(1));
    assert!(!list.contains_key("b").unwrap());
}

#[test]
fn flag_codes() {
    assert_eq!(NvFlag::Both.code(), 3);
    assert_eq!(NvFlag::from_code(2), Some(NvFlag::NoUnique));
    assert_eq!(NvFlag::from_code(4), None);
}

#[test]
fn unpack_error_codes() {
    let mut nv = NvList::new(NvFlag::NoFlags).unwrap();
    nv.insert_number("Answer", 42u64).unwrap();
    let packed = nv.pack().unwrap();
    assert_eq!(packed.unpack(NvFlag::Both).unwrap_err(), NvError::Io(libc::EILSEQ));
    let corrupt = PackedNvList::from_vec(vec![42u8; 100]);
    assert_eq!(corrupt.unpack(NvFlag::NoFlags).unwrap_err(), NvError::Io(libc::EINVAL));
}

#[test]
fn duplicate_code_is_eexist() {
    let mut list = NvList::new(NvFlag::IgnoreCase).unwrap();
    list.insert_bool("Flag", true).unwrap();
    assert_eq!(list.insert_bool("FLAG", false), Err(NvError::NativeError(libc::EEXIST)));
    assert_eq!(list.error(), libc::EEXIST);
}

#[test]
fn unpack_rejects_invalid_utf8_name() {
    let bytes: Vec<u8> = vec![110, 0, 1, 0, 0, 0, 0, 0, 0, 0, 1, 1, 0, 0, 0, 0, 0, 0, 0, 0xff];
    assert!(matches!(BorrowedPackedNvList::from_raw(&bytes).unpack(NvFlag::NoFlags), Err(NvError::Io(_))));
    let good: Vec<u8> = vec![110, 0, 1, 0, 0, 0, 0, 0, 0, 0, 1, 2, 0, 0, 0, 0, 0, 0, 0, 0xc3, 0xa9];
    let list = BorrowedPackedNvList::from_raw(&good).unpack(NvFlag::NoFlags).unwrap();
    assert!(list.contains_key_with_type("\u{e9}", NvType::Null).unwrap());
}
