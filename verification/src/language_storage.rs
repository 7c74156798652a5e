//! The keys under which modules and resources are kept in global storage.

use crate::account_address::{AccountAddress, AddressError};
use crate::bytes::{append_bytes, append_u64};
use crate::hash::{sha3_256, HashValue};
use crate::identifier::{identifier_bytes, is_valid_identifier, Identifier, IdentifierError};
use vstd::prelude::*;

verus! {

/// The type of a resource: the struct `name`, declared by the module
/// `module` that is published under `address`, with its type arguments.
#[derive(Debug, PartialEq, Hash, Eq, PartialOrd, Ord)]
pub struct StructTag {
    pub address: AccountAddress,
    pub module: Identifier,
    pub name: Identifier,
    pub type_params: Vec<StructTag>,
}

/// A type of a resource as contracts see it.
pub struct StructTagView {
    pub address: Seq<u8>,
    pub module: Seq<char>,
    pub name: Seq<char>,
    pub type_params: Seq<StructTagView>,
}

/// The type `tag` as contracts see it: its parts, and its type arguments
/// as contracts see them.
pub open spec fn struct_tag_view(tag: StructTag) -> StructTagView
    decreases tag,
{
    StructTagView {
        address: tag.address@,
        module: tag.module@,
        name: tag.name@,
        type_params: Seq::new(
            tag.type_params@.len(),
            |i: int|
                if 0 <= i < tag.type_params@.len() {
                    struct_tag_view(tag.type_params@[i])
                } else {
                    arbitrary()
                },
        ),
    }
}

impl View for StructTag {
    type V = StructTagView;

    open spec fn view(&self) -> StructTagView {
        struct_tag_view(*self)
    }
}

impl Clone for StructTag {
    fn clone(&self) -> (r: Self)
        ensures
            r@ == self@,
        decreases self,
    {
        let mut type_params: Vec<StructTag> = Vec::new();
        let mut i: usize = 0;
        while i < self.type_params.len()
            invariant
                i <= self.type_params.len(),
                type_params@.len() == i,
                forall|k: int| 0 <= k < i ==> (#[trigger] type_params@[k])@ == self.type_params@[k]@,
            decreases self.type_params.len() - i,
        {
            proof {
                broadcast use vstd::std_specs::vec::axiom_vec_index_decreases;
            }
            let param = self.type_params[i].clone();
            type_params.push(param);
            i += 1;
        }
        let r = StructTag {
            address: self.address,
            module: self.module.clone(),
            name: self.name.clone(),
            type_params,
        };
        proof {
            reveal_with_fuel(struct_tag_view, 2);
            assert(r.type_params@.len() == self.type_params@.len());
            assert(r@.type_params.len() == r.type_params@.len());
            assert forall|k: int| 0 <= k < r@.type_params.len() implies r@.type_params[k]
                == self@.type_params[k] by {
                assert(r.type_params@[k]@ == self.type_params@[k]@);
            }
            assert(r@.type_params =~= self@.type_params);
        }
        r
    }
}

/// The bytes that name the types of a list, one after the other.
pub open spec fn type_params_bytes(params: Seq<StructTagView>) -> Seq<u8>
    decreases params,
{
    if params.len() == 0 {
        Seq::empty()
    } else {
        type_params_bytes(params.drop_last()) + struct_tag_bytes(params.last())
    }
}

/// The bytes that name a type: the address; the module and the name, each
/// after its length in eight little-endian bytes; the number of type
/// arguments in eight little-endian bytes; and the bytes that name the type
/// arguments.
pub open spec fn struct_tag_bytes(tag: StructTagView) -> Seq<u8>
    decreases tag,
{
    tag.address + vstd::bytes::spec_u64_to_le_bytes(tag.module.len() as u64) + identifier_bytes(
        tag.module,
    ) + vstd::bytes::spec_u64_to_le_bytes(tag.name.len() as u64) + identifier_bytes(tag.name)
        + vstd::bytes::spec_u64_to_le_bytes(tag.type_params.len() as u64) + type_params_bytes(
        tag.type_params,
    )
}

impl StructTag {
    /// The bytes that name the type.
    pub fn to_bytes(&self) -> (v: Vec<u8>)
        ensures
            v@ == struct_tag_bytes(self@),
        decreases self,
    {
        let mut v: Vec<u8> = Vec::new();
        append_bytes(&mut v, self.address.bytes.as_slice());
        let module = self.module.to_bytes();
        append_u64(&mut v, module.len() as u64);
        append_bytes(&mut v, module.as_slice());
        let name = self.name.to_bytes();
        append_u64(&mut v, name.len() as u64);
        append_bytes(&mut v, name.as_slice());
        append_u64(&mut v, self.type_params.len() as u64);
        let ghost head = v@;
        proof {
            reveal_with_fuel(struct_tag_view, 2);
            assert(self@.type_params.len() == self.type_params@.len());
            assert(self@.type_params.take(0) =~= Seq::<StructTagView>::empty());
        }
        let mut i: usize = 0;
        while i < self.type_params.len()
            invariant
                i <= self.type_params.len(),
                self@.type_params.len() == self.type_params@.len(),
                forall|k: int|
                    0 <= k < self.type_params@.len() ==> self@.type_params[k]
                        == (#[trigger] self.type_params@[k])@,
                v@ == head + type_params_bytes(self@.type_params.take(i as int)),
            decreases self.type_params.len() - i,
        {
            proof {
                broadcast use vstd::std_specs::vec::axiom_vec_index_decreases;
            }
            let param = self.type_params[i].to_bytes();
            append_bytes(&mut v, param.as_slice());
            proof {
                let next = self@.type_params.take(i + 1);
                assert(next.drop_last() =~= self@.type_params.take(i as int));
                assert(next.last() == self.type_params@[i as int]@);
            }
            i += 1;
        }
        assert(self@.type_params.take(i as int) =~= self@.type_params);
        v
    }

    /// The SHA3-256 digest of the bytes that name the type.
    pub fn hash(&self) -> (h: HashValue)
        ensures
            h@ == sha3_256(struct_tag_bytes(self@)),
    {
        let bytes = self.to_bytes();
        HashValue::from_sha3(bytes.as_slice())
    }
}

/// The key of a resource in global storage: the account that holds it, then
/// its type.
#[derive(Debug, PartialEq, Hash, Eq, Clone, PartialOrd, Ord)]
pub struct ResourceKey {
    address: AccountAddress,
    type_: StructTag,
}

impl ResourceKey {
    /// The account that holds the resource, in contracts.
    pub closed spec fn spec_address(&self) -> AccountAddress {
        self.address
    }

    /// The type of the resource, in contracts.
    pub closed spec fn spec_type(&self) -> &StructTag {
        &self.type_
    }

    /// The account that holds the resource.
    #[verifier::when_used_as_spec(spec_address)]
    pub fn address(&self) -> (a: AccountAddress)
        ensures
            a == self.spec_address(),
    {
        self.address
    }

    /// The type of the resource.
    #[verifier::when_used_as_spec(spec_type)]
    pub fn type_(&self) -> (t: &StructTag)
        ensures
            t == self.spec_type(),
    {
        &self.type_
    }
}

impl ResourceKey {
    /// The key of the resource of type `type_` that `address` holds.
    pub fn new(address: AccountAddress, type_: StructTag) -> (k: Self)
        ensures
            k.spec_address() == address,
            *k.spec_type() == type_,
    {
        ResourceKey { address, type_ }
    }
}

/// The key of a module in global storage: the account that published it,
/// then its name.
#[derive(Debug, PartialEq, Hash, Eq, Clone, PartialOrd, Ord)]
pub struct ModuleId {
    address: AccountAddress,
    name: Identifier,
}

/// A module's key as it travels: the address as a byte string of any length,
/// the name as any text.
#[derive(Debug, PartialEq, Eq, Clone)]
pub struct ModuleIdRecord {
    pub address: Vec<u8>,
    pub name: String,
}

/// Why a travelling record was not taken for a module's key.
#[derive(Clone, Copy, Debug, PartialEq, Eq, Structural)]
pub enum ModuleIdError {
    /// The address does not have the length of an address.
    Address(AddressError),
    /// The name is no identifier.
    Name(IdentifierError),
}

/// The bytes that name a module: the address, the length of the name in
/// eight little-endian bytes, then the name.
pub open spec fn module_id_bytes(address: Seq<u8>, name: Seq<char>) -> Seq<u8> {
    address + vstd::bytes::spec_u64_to_le_bytes(name.len() as u64) + identifier_bytes(name)
}

impl ModuleId {
    /// The account that published the module, in contracts.
    pub closed spec fn spec_address(&self) -> &AccountAddress {
        &self.address
    }

    /// The name of the module, in contracts.
    pub closed spec fn spec_name(&self) -> &Identifier {
        &self.name
    }

    /// The key of the module `name` that `address` published.
    pub fn new(address: AccountAddress, name: Identifier) -> (m: Self)
        ensures
            *m.spec_address() == address,
            *m.spec_name() == name,
    {
        ModuleId { address, name }
    }

    /// The name of the module.
    #[verifier::when_used_as_spec(spec_name)]
    pub fn name(&self) -> (n: &Identifier)
        ensures
            n == self.spec_name(),
    {
        &self.name
    }

    /// The account that published the module.
    #[verifier::when_used_as_spec(spec_address)]
    pub fn address(&self) -> (a: &AccountAddress)
        ensures
            a == self.spec_address(),
    {
        &self.address
    }

    /// Reads a module's key from a travelling record. The address must have
    /// the length of an address and the name must be an identifier; the
    /// address is looked at first.
    pub fn try_from(record: ModuleIdRecord) -> (r: Result<ModuleId, ModuleIdError>)
        ensures
            r is Ok <==> record.address@.len() == 32 && is_valid_identifier(record.name@),
            r matches Ok(m) ==> m.spec_address()@ == record.address@ && m.spec_name()@
                == record.name@,
            r matches Err(e) ==> e == (if record.address@.len() != 32 {
                ModuleIdError::Address(AddressError::WrongLength)
            } else {
                ModuleIdError::Name(IdentifierError::Invalid)
            }),
    {
        let address = match AccountAddress::from_bytes(record.address.as_slice()) {
            Ok(a) => a,
            Err(e) => {
                return Err(ModuleIdError::Address(e));
            },
        };
        let name = match Identifier::new(record.name) {
            Ok(n) => n,
            Err(e) => {
                return Err(ModuleIdError::Name(e));
            },
        };
        Ok(ModuleId { address, name })
    }

    /// Writes the key as a travelling record.
    pub fn into_record(self) -> (record: ModuleIdRecord)
        ensures
            record.address@ == self.spec_address()@,
            record.name@ == self.spec_name()@,
    {
        ModuleIdRecord { address: self.address.to_vec(), name: self.name.into_string() }
    }

    /// The bytes that name the module.
    pub fn to_bytes(&self) -> (v: Vec<u8>)
        ensures
            v@ == module_id_bytes(self.spec_address()@, self.spec_name()@),
    {
        let mut v: Vec<u8> = Vec::new();
        append_bytes(&mut v, self.address.bytes.as_slice());
        let name = self.name.to_bytes();
        append_u64(&mut v, name.len() as u64);
        append_bytes(&mut v, name.as_slice());
        v
    }

    /// The SHA3-256 digest of the bytes that name the module.
    pub fn hash(&self) -> (h: HashValue)
        ensures
            h@ == sha3_256(module_id_bytes(self.spec_address()@, self.spec_name()@)),
    {
        let bytes = self.to_bytes();
        HashValue::from_sha3(bytes.as_slice())
    }
}

} // verus!
