use chained_bft::access_path::{AccessPath, CODE_TAG};
use chained_bft::account_address::{AccountAddress, AddressError};
use chained_bft::bytes::{compare_bytes, ByteOrder};
use chained_bft::hash::HashValue;
use chained_bft::identifier::{Identifier, IdentifierError};
use chained_bft::language_storage::{ModuleId, ModuleIdError, ModuleIdRecord, ResourceKey, StructTag};

fn address(index: u8) -> AccountAddress {
    AccountAddress::new([index; 32])
}

fn ident(text: &str) -> Identifier {
    Identifier::new(text.to_string()).unwrap()
}

fn coin_tag() -> StructTag {
    StructTag {
        address: address(0),
        module: ident("LibraCoin"),
        name: ident("T"),
        type_params: vec![],
    }
}

#[test]
fn identifier_accepts_names() {
    assert!(Identifier::is_valid("foo"));
    assert!(Identifier::is_valid("_bar"));
    assert!(Identifier::is_valid("_"));
    assert!(Identifier::is_valid("Baz_123"));
    assert_eq!(ident("LibraAccount").as_str(), "LibraAccount");
    assert_eq!(ident("T").into_string(), "T".to_string());
}

#[test]
fn identifier_refuses_other_texts() {
    assert!(!Identifier::is_valid(""));
    assert!(!Identifier::is_valid("1abc"));
    assert!(!Identifier::is_valid("a-b"));
    assert!(!Identifier::is_valid("a b"));
    assert!(!Identifier::is_valid("caf\u{e9}"));
    assert_eq!(Identifier::new("9".to_string()), Err(IdentifierError::Invalid));
}

#[test]
fn identifier_bytes_are_its_ascii() {
    assert_eq!(ident("a_Z09").to_bytes(), vec![97, 95, 90, 48, 57]);
}

#[test]
fn resource_key_keeps_its_parts() {
    let key = ResourceKey::new(address(7), coin_tag());
    assert_eq!(key.address(), address(7));
    assert_eq!(key.type_(), &coin_tag());
    assert_eq!(key.type_().name.as_str(), "T");
}

#[test]
fn module_id_keeps_its_parts() {
    let id = ModuleId::new(address(3), ident("Hash"));
    assert_eq!(id.address(), &address(3));
    assert_eq!(id.name(), &ident("Hash"));
    assert_eq!(id.name().as_str(), "Hash");
}

#[test]
fn struct_tag_clone_is_equal() {
    let inner = coin_tag();
    let outer = StructTag {
        address: address(1),
        module: ident("Vector"),
        name: ident("T"),
        type_params: vec![inner.clone(), inner],
    };
    assert_eq!(outer.clone(), outer);
    assert_eq!(outer.clone().type_params.len(), 2);
}

#[test]
fn module_id_from_record_and_back() {
    let record = ModuleIdRecord { address: vec![5u8; 32], name: "Coin".to_string() };
    let id = ModuleId::try_from(record.clone()).unwrap();
    assert_eq!(id, ModuleId::new(address(5), ident("Coin")));
    assert_eq!(id.into_record(), record);
}

#[test]
fn module_id_from_record_errors() {
    let short = ModuleIdRecord { address: vec![5u8; 31], name: "Coin".to_string() };
    assert_eq!(
        ModuleId::try_from(short),
        Err(ModuleIdError::Address(AddressError::WrongLength))
    );
    let bad_name = ModuleIdRecord { address: vec![5u8; 32], name: "no coin".to_string() };
    assert_eq!(
        ModuleId::try_from(bad_name),
        Err(ModuleIdError::Name(IdentifierError::Invalid))
    );
    // The address is looked at first.
    let both = ModuleIdRecord { address: vec![], name: "".to_string() };
    assert_eq!(
        ModuleId::try_from(both),
        Err(ModuleIdError::Address(AddressError::WrongLength))
    );
}

#[test]
fn module_id_bytes_frame_the_name() {
    let id = ModuleId::new(address(2), ident("ab"));
    let mut expected = vec![2u8; 32];
    expected.extend_from_slice(&2u64.to_le_bytes());
    expected.extend_from_slice(b"ab");
    assert_eq!(id.to_bytes(), expected);
}

#[test]
fn module_id_hash_is_sha3_of_its_bytes() {
    let id = ModuleId::new(address(2), ident("ab"));
    assert_eq!(id.hash(), HashValue::from_sha3(&id.to_bytes()));
    let other = ModuleId::new(address(2), ident("ac"));
    assert_ne!(id.hash(), other.hash());
}

#[test]
fn sha3_matches_the_known_digest() {
    let expected: [u8; 32] = [
        0x64, 0x4b, 0xcc, 0x7e, 0x56, 0x43, 0x73, 0x04, 0x09, 0x99, 0xaa, 0xc8, 0x9e, 0x76, 0x22,
        0xf3, 0xca, 0x71, 0xfb, 0xa1, 0xd9, 0x72, 0xfd, 0x94, 0xa3, 0x1c, 0x3b, 0xfb, 0xf2, 0x4e,
        0x39, 0x38,
    ];
    assert_eq!(HashValue::from_sha3(b"hello world"), HashValue::new(expected));
    assert_ne!(HashValue::from_sha3(b"hello world"), HashValue::zero());
    assert_eq!(HashValue::zero().to_vec(), vec![0u8; 32]);
}

#[test]
fn code_access_path_is_tag_then_hash() {
    let id = ModuleId::new(address(9), ident("M"));
    let path = AccessPath::code_access_path(&id);
    assert_eq!(path.address, address(9));
    assert_eq!(path.path.len(), 33);
    assert_eq!(path.path[0], CODE_TAG);
    assert_eq!(&path.path[1..], &id.hash().to_vec()[..]);
}

#[test]
fn address_from_bytes_checks_length() {
    assert_eq!(AccountAddress::from_bytes(&[1u8; 32]), Ok(address(1)));
    assert_eq!(AccountAddress::from_bytes(&[1u8; 33]), Err(AddressError::WrongLength));
    assert_eq!(AccountAddress::from_bytes(&[]), Err(AddressError::WrongLength));
    assert_eq!(address(4).to_vec(), vec![4u8; 32]);
}

#[test]
fn bytes_compare_lexicographically() {
    assert_eq!(compare_bytes(b"", b""), ByteOrder::Equal);
    assert_eq!(compare_bytes(b"", b"a"), ByteOrder::Less);
    assert_eq!(compare_bytes(b"a", b""), ByteOrder::Greater);
    assert_eq!(compare_bytes(b"ab", b"abc"), ByteOrder::Less);
    assert_eq!(compare_bytes(b"abd", b"abc"), ByteOrder::Greater);
    assert_eq!(compare_bytes(b"b", b"abc"), ByteOrder::Greater);
    assert_eq!(compare_bytes(b"abc", b"abc"), ByteOrder::Equal);
}

#[test]
fn access_paths_order_by_address_then_path() {
    let a = AccessPath::new(address(1), vec![9, 9]);
    let b = AccessPath::new(address(2), vec![0]);
    let c = AccessPath::new(address(2), vec![0, 0]);
    assert_eq!(a.compare(&b), ByteOrder::Less);
    assert_eq!(b.compare(&a), ByteOrder::Greater);
    assert_eq!(b.compare(&c), ByteOrder::Less);
    assert_eq!(c.compare(&c.clone()), ByteOrder::Equal);
    // The order is the one that the derived comparison gives.
    assert!(a < b && b < c);
}

#[test]
fn struct_tag_bytes_frame_its_parts_and_arguments() {
    let inner = coin_tag();
    let mut inner_bytes = vec![0u8; 32];
    inner_bytes.extend_from_slice(&9u64.to_le_bytes());
    inner_bytes.extend_from_slice(b"LibraCoin");
    inner_bytes.extend_from_slice(&1u64.to_le_bytes());
    inner_bytes.extend_from_slice(b"T");
    inner_bytes.extend_from_slice(&0u64.to_le_bytes());
    assert_eq!(inner.to_bytes(), inner_bytes);

    let outer = StructTag {
        address: address(1),
        module: ident("Vector"),
        name: ident("V"),
        type_params: vec![inner.clone(), inner.clone()],
    };
    let mut expected = vec![1u8; 32];
    expected.extend_from_slice(&6u64.to_le_bytes());
    expected.extend_from_slice(b"Vector");
    expected.extend_from_slice(&1u64.to_le_bytes());
    expected.extend_from_slice(b"V");
    expected.extend_from_slice(&2u64.to_le_bytes());
    expected.extend_from_slice(&inner_bytes);
    expected.extend_from_slice(&inner_bytes);
    assert_eq!(outer.to_bytes(), expected);
    assert_eq!(outer.hash(), HashValue::from_sha3(&expected));
    assert_ne!(outer.hash(), inner.hash());
}
