use std::collections::HashMap;

use libnv::nvpair::{NvFlag, NvList, Value};
use libnv::NvError;

#[test]
fn it_works() {
    let mut list = NvList::new(NvFlag::UniqueNameType).unwrap();
    assert!(list.is_empty());
    assert!(!list.contains_key("does_it_work").unwrap());
    list.insert_bool("does_it_work", true).unwrap();
    assert!(!list.is_empty());
    assert!(list.get_bool("does_it_work").unwrap());
    assert!(list.contains_key("does_it_work").unwrap());
}

#[test]
fn nvop_boolean() {
    let mut list = NvList::new(NvFlag::UniqueNameType).unwrap();
    list.insert("works", true).unwrap();
    assert!(list.contains_key("works").unwrap());
}

#[test]
fn nvop_string() {
    let mut list = NvList::new(NvFlag::UniqueNameType).unwrap();
    list.insert("works", "yay").unwrap();
    assert!(list.contains_key("works").unwrap());
}

#[test]
fn nvop_i8() {
    let mut list = NvList::new(NvFlag::UniqueNameType).unwrap();
    list.insert("works", 5 as i8).unwrap();
    assert!(list.contains_key("works").unwrap());
}

#[test]
fn nvop_u8() {
    let mut list = NvList::new(NvFlag::UniqueNameType).unwrap();
    list.insert("works", 5 as u8).unwrap();
    assert!(list.contains_key("works").unwrap());
}

#[test]
fn nvop_i16() {
    let mut list = NvList::new(NvFlag::UniqueNameType).unwrap();
    list.insert("works", 5 as i16).unwrap();
    assert!(list.contains_key("works").unwrap());
}

#[test]
fn nvop_u16() {
    let mut list = NvList::new(NvFlag::UniqueNameType).unwrap();
    list.insert("works", 5 as u16).unwrap();
    assert!(list.contains_key("works").unwrap());
}

#[test]
fn nvop_i32() {
    let mut list = NvList::new(NvFlag::UniqueNameType).unwrap();
    list.insert("works", 5 as i32).unwrap();
    assert!(list.contains_key("works").unwrap());
}

#[test]
fn nvop_u32() {
    let mut list = NvList::new(NvFlag::UniqueNameType).unwrap();
    list.insert("works", 5 as u32).unwrap();
    assert!(list.contains_key("works").unwrap());
}

#[test]
fn nvop_i64() {
    let mut list = NvList::new(NvFlag::UniqueNameType).unwrap();
    list.insert("works", 5 as i64).unwrap();
    assert!(list.contains_key("works").unwrap());
}

#[test]
fn nvop_u64() {
    let mut list = NvList::new(NvFlag::UniqueNameType).unwrap();
    list.insert("works", 5 as u64).unwrap();
    assert!(list.contains_key("works").unwrap());
}

#[test]
fn cr_i8() {
    let val = 4;
    let mut list = NvList::new(NvFlag::UniqueNameType).unwrap();
    list.insert_i8("random", val).expect("Failed to insert int8");
    let ret = list.get_i8("random").unwrap();
    assert_eq!(val, ret);
}

#[test]
fn cr_u8() {
    let val = 4;
    let mut list = NvList::new(NvFlag::UniqueNameType).unwrap();
    list.insert_u8("random", val).expect("Failed to insert uint8");
    let ret = list.get_u8("random").unwrap();
    assert_eq!(val, ret);
}

#[test]
fn cr_i16() {
    let val = 4;
    let mut list = NvList::new(NvFlag::UniqueNameType).unwrap();
    list.insert_i16("random", val).expect("Failed to insert int16");
    let ret = list.get_i16("random").unwrap();
    assert_eq!(val, ret);
}

#[test]
fn cr_u16() {
    let val = 4;
    let mut list = NvList::new(NvFlag::UniqueNameType).unwrap();
    list.insert_u16("random", val).expect("Failed to insert uint16");
    let ret = list.get_u16("random").unwrap();
    assert_eq!(val, ret);
}

#[test]
fn cr_i32() {
    let val = 4;
    let mut list = NvList::new(NvFlag::UniqueNameType).unwrap();
    list.insert_i32("random", val).expect("Failed to insert int32");
    let ret = list.get_i32("random").unwrap();
    assert_eq!(val, ret);
}

#[test]
fn cr_u32() {
    let val = 4;
    let mut list = NvList::new(NvFlag::UniqueNameType).unwrap();
    list.insert_u32("random", val).expect("Failed to insert uint32");
    let ret = list.get_u32("random").unwrap();
    assert_eq!(val, ret);
}

#[test]
fn cr_i64() {
    let val = 4;
    let mut list = NvList::new(NvFlag::UniqueNameType).unwrap();
    list.insert_i64("random", val).expect("Failed to insert int64");
    let ret = list.get_i64("random").unwrap();
    assert_eq!(val, ret);
}

#[test]
fn cr_u64() {
    let val = 4;
    let mut list = NvList::new(NvFlag::UniqueNameType).unwrap();
    list.insert_u64("random", val).expect("Failed to insert uint64");
    let ret = list.get_u64("random").unwrap();
    assert_eq!(val, ret);
}

#[test]
fn cr_string() {
    let val = "yes";
    let mut list = NvList::new(NvFlag::UniqueNameType).unwrap();
    list.insert_string("is_it_ready?", val).unwrap();
    let ret = list.get_string("is_it_ready?").unwrap();
    assert_eq!(val, &ret);

    let ret = list.get_str("is_it_ready?").unwrap();
    assert_eq!(val, ret);
}

#[test]
fn cr_i8_array() {
    let mut val = [1, 2, 3, 4 as i8];
    let mut list = NvList::new(NvFlag::UniqueNameType).unwrap();
    list.insert_i8_array("works", &mut val as &mut [i8]).unwrap();
    assert!(list.contains_key("works").unwrap());
    let ret = list.get_i8_array("works").unwrap();
    assert_eq!(4, ret.len());
    assert_eq!(&val, &ret);
}

#[test]
fn cr_u8_array() {
    let mut val = [1, 2, 3, 4 as u8];
    let mut list = NvList::new(NvFlag::UniqueNameType).unwrap();
    list.insert_u8_array("works", &mut val as &mut [u8]).unwrap();
    assert!(list.contains_key("works").unwrap());
    let ret = list.get_u8_array("works").unwrap();
    assert_eq!(4, ret.len());
    assert_eq!(&val, &ret);
}

#[test]
fn cr_i16_array() {
    let mut val = [1, 2, 3, 4 as i16];
    let mut list = NvList::new(NvFlag::UniqueNameType).unwrap();
    list.insert_i16_array("works", &mut val as &mut [i16]).unwrap();
    assert!(list.contains_key("works").unwrap());
    let ret = list.get_i16_array("works").unwrap();
    assert_eq!(4, ret.len());
    assert_eq!(&val, &ret);
}

#[test]
fn cr_u16_array() {
    let mut val = [1, 2, 3, 4 as u16];
    let mut list = NvList::new(NvFlag::UniqueNameType).unwrap();
    list.insert_u16_array("works", &mut val as &mut [u16]).unwrap();
    assert!(list.contains_key("works").unwrap());
    let ret = list.get_u16_array("works").unwrap();
    assert_eq!(4, ret.len());
    assert_eq!(&val, &ret);
}

#[test]
fn cr_i32_array() {
    let mut val = [1, 2, 3, 4 as i32];
    let mut list = NvList::new(NvFlag::UniqueNameType).unwrap();
    list.insert_i32_array("works", &mut val as &mut [i32]).unwrap();
    assert!(list.contains_key("works").unwrap());
    let ret = list.get_i32_array("works").unwrap();
    assert_eq!(4, ret.len());
    assert_eq!(&val, &ret);
}

#[test]
fn cr_u32_array() {
    let mut val = [1, 2, 3, 4 as u32];
    let mut list = NvList::new(NvFlag::UniqueNameType).unwrap();
    list.insert_u32_array("works", &mut val as &mut [u32]).unwrap();
    assert!(list.contains_key("works").unwrap());
    let ret = list.get_u32_array("works").unwrap();
    assert_eq!(4, ret.len());
    assert_eq!(&val, &ret);
}

#[test]
fn cr_i64_array() {
    let mut val = [1, 2, 3, 4 as i64];
    let mut list = NvList::new(NvFlag::UniqueNameType).unwrap();
    list.insert_i64_array("works", &mut val as &mut [i64]).unwrap();
    assert!(list.contains_key("works").unwrap());
    let ret = list.get_i64_array("works").unwrap();
    assert_eq!(4, ret.len());
    assert_eq!(&val, &ret);
}

#[test]
fn cr_u64_array() {
    let mut val = [1, 2, 3, 4 as u64];
    let mut list = NvList::new(NvFlag::UniqueNameType).unwrap();
    list.insert_u64_array("works", &mut val as &mut [u64]).unwrap();
    assert!(list.contains_key("works").unwrap());
    let ret = list.get_u64_array("works").unwrap();
    assert_eq!(4, ret.len());
    assert_eq!(&val, &ret);
}

#[test]
fn debug_list() {
    let mut list = NvList::new(NvFlag::UniqueNameType).unwrap();
    list.insert("u32", 1u32).unwrap();
    list.insert("i8", 1i8).unwrap();
    list.insert("string", "oh yeah").unwrap();
    println!("{:?}", &list);

    let mut iter = list.iter();

    {
        let el = iter.next().unwrap();
        println!("{:?}", &el);
        let pair = (el.key().to_string(), el.value());
        let expected_pair = (String::from("u32"), Value::from(1u32));
        assert_eq!(expected_pair, pair);
    }
    {
        let el = iter.next().unwrap();
        println!("{:?}", &el);
        let pair = (el.key().to_string(), el.value());
        let expected_pair = (String::from("i8"), Value::from(1i8));
        assert_eq!(expected_pair, pair);
    }
    {
        let el = iter.next().unwrap();
        println!("{:?}", &el);
        let pair = (el.key().to_string(), el.value());
        let expected_pair = (String::from("string"), Value::from(String::from("oh yeah")));
        assert_eq!(expected_pair, pair);
    }
    assert!(iter.next().is_none());
}

#[test]
fn into_hash_map() {
    let mut list = NvList::new(NvFlag::UniqueNameType).unwrap();
    list.insert("u32", 1u32).unwrap();
    list.insert("i8", 1i8).unwrap();
    list.insert("string", "oh yeah").unwrap();

    let mut expected_map = HashMap::with_capacity(3);
    expected_map.insert(String::from("u32"), Value::from(1u32));
    expected_map.insert(String::from("i8"), Value::from(1i8));
    expected_map.insert(String::from("string"), Value::from(String::from("oh yeah")));

    assert_eq!(expected_map, list.into_hashmap());
}

#[test]
fn lookups_need_unique_names() {
    let mut list = NvList::new(NvFlag::NoFlags).unwrap();
    list.insert_u32("a", 1).unwrap();
    list.insert_u32("a", 2).unwrap();
    assert_eq!(list.get_u32("a"), Err(NvError::OperationNotSupported));
    assert!(list.contains_key("a").unwrap());
    let mut iter = list.iter();
    assert_eq!(iter.next().unwrap().value(), Value::Uint32(1));
    assert_eq!(iter.next().unwrap().value(), Value::Uint32(2));
    assert!(iter.next().is_none());
}

#[test]
fn missing_or_wrong_type_is_not_found() {
    let mut list = NvList::new(NvFlag::UniqueNameType).unwrap();
    assert_eq!(list.get_u8("nothing"), Err(NvError::NotFound));
    list.insert_u16("n", 3).unwrap();
    assert_eq!(list.get_u8("n"), Err(NvError::NotFound));
    assert_eq!(list.get_bool("bad\0name"), Err(NvError::InvalidString(3)));
}

#[test]
fn unique_name_replaces_any_type() {
    let mut list = NvList::new(NvFlag::UniqueName).unwrap();
    list.insert_u32("k", 1).unwrap();
    list.insert_string("other", "x").unwrap();
    list.insert_bool("k", true).unwrap();
    assert_eq!(list.get_u32("k"), Err(NvError::NotFound));
    assert_eq!(list.get_bool("k"), Ok(true));
    let mut iter = list.iter();
    assert_eq!(iter.next().unwrap().key(), "other");
    assert_eq!(iter.next().unwrap().key(), "k");
    assert!(iter.next().is_none());
}

#[test]
fn unique_name_type_keeps_other_types() {
    let mut list = NvList::new(NvFlag::UniqueNameType).unwrap();
    list.insert_u32("k", 1).unwrap();
    list.insert_bool("k", true).unwrap();
    list.insert_u32("k", 2).unwrap();
    assert_eq!(list.get_u32("k"), Ok(2));
    assert_eq!(list.get_bool("k"), Ok(true));
    let mut iter = list.iter();
    assert_eq!(iter.next().unwrap().value(), Value::Bool(true));
    assert_eq!(iter.next().unwrap().value(), Value::Uint32(2));
    assert!(iter.next().is_none());
}

#[test]
fn arrays_read_as_unknown_and_value_accessors() {
    let mut list = NvList::default();
    list.insert_u8_array("bytes", &[1, 2]).unwrap();
    list.insert_i8("small", -3).unwrap();
    let mut iter = list.iter();
    let arr = iter.next().unwrap().value();
    assert_eq!(arr, Value::Unknown);
    assert_eq!(arr.as_u8(), Err(NvError::OperationNotSupported));
    let small = iter.next().unwrap().value();
    assert_eq!(small.as_i8(), Ok(-3));
    assert_eq!(small.as_bool(), Err(NvError::OperationNotSupported));
    assert_eq!(Value::from(7u8).as_u8(), Ok(7));
    assert_eq!(Value::Bool(false).as_bool(), Ok(false));
}

#[test]
fn string_with_nul_is_rejected() {
    let mut list = NvList::default();
    assert_eq!(list.insert_string("s", "a\0"), Err(NvError::InvalidString(1)));
    assert_eq!(list.insert("s", "\0"), Err(NvError::InvalidString(0)));
    assert!(list.is_empty());
}
