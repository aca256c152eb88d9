//! Access paths: the keys of an account's state. A key is one tag byte, for
//! code or for a resource, and then the encoding of a module id or of a
//! struct tag.

use vstd::prelude::*;
use vstd::slice::slice_subrange;

verus! {

/// The tag byte of a key under which a module is stored.
pub const CODE_TAG: u8 = 0;

/// The tag byte of a key under which a resource is stored.
pub const RESOURCE_TAG: u8 = 1;

/// The name of a struct type without type arguments: the address and the
/// module that declare it, and its own name.
#[derive(Clone, Debug, PartialEq, Eq)]
pub struct TypeName {
    pub address: Vec<u8>,
    pub module: Vec<u8>,
    pub name: Vec<u8>,
}

/// The model of a [`TypeName`].
pub struct TypeNameView {
    pub address: Seq<u8>,
    pub module: Seq<u8>,
    pub name: Seq<u8>,
}

impl View for TypeName {
    type V = TypeNameView;

    open spec fn view(&self) -> TypeNameView {
        TypeNameView { address: self.address@, module: self.module@, name: self.name@ }
    }
}

/// A type argument of a struct tag, as far as this library looks into it.
#[derive(Clone, Debug, PartialEq, Eq)]
pub enum TypeTag {
    /// A struct type: its name and the number of its own type arguments.
    Struct { address: Vec<u8>, module: Vec<u8>, name: Vec<u8>, arity: usize },
    /// Any other type.
    Other,
}

/// The model of a [`TypeTag`].
pub enum TypeTagView {
    Struct { address: Seq<u8>, module: Seq<u8>, name: Seq<u8>, arity: usize },
    Other,
}

impl View for TypeTag {
    type V = TypeTagView;

    open spec fn view(&self) -> TypeTagView {
        match self {
            TypeTag::Struct { address, module, name, arity } => TypeTagView::Struct {
                address: address@,
                module: module@,
                name: name@,
                arity: *arity,
            },
            TypeTag::Other => TypeTagView::Other,
        }
    }
}

/// The type of a resource.
#[derive(Clone, Debug, PartialEq, Eq)]
pub struct StructTag {
    pub address: Vec<u8>,
    pub module: Vec<u8>,
    pub name: Vec<u8>,
    pub type_params: Vec<TypeTag>,
}

/// The model of a [`StructTag`].
pub struct StructTagView {
    pub address: Seq<u8>,
    pub module: Seq<u8>,
    pub name: Seq<u8>,
    pub type_params: Seq<TypeTagView>,
}

impl View for StructTag {
    type V = StructTagView;

    open spec fn view(&self) -> StructTagView {
        StructTagView {
            address: self.address@,
            module: self.module@,
            name: self.name@,
            type_params: self.type_params@.map_values(|t: TypeTag| t@),
        }
    }
}

/// The name of a module.
#[derive(Clone, Debug, PartialEq, Eq)]
pub struct ModuleId {
    pub address: Vec<u8>,
    pub name: Vec<u8>,
}

/// The model of a [`ModuleId`].
pub struct ModuleIdView {
    pub address: Seq<u8>,
    pub name: Seq<u8>,
}

impl View for ModuleId {
    type V = ModuleIdView;

    open spec fn view(&self) -> ModuleIdView {
        ModuleIdView { address: self.address@, name: self.name@ }
    }
}

/// What a key names: a module or a resource.
#[derive(Clone, Debug, PartialEq, Eq)]
pub enum Path {
    Code(ModuleId),
    Resource(StructTag),
}

/// The model of a [`Path`].
pub enum PathView {
    Code(ModuleIdView),
    Resource(StructTagView),
}

impl View for Path {
    type V = PathView;

    open spec fn view(&self) -> PathView {
        match self {
            Path::Code(id) => PathView::Code(id@),
            Path::Resource(tag) => PathView::Resource(tag@),
        }
    }
}

/// The struct tag that `bcs` reads from `bytes` as a `StructTag` of
/// `move_core_types`, or `None` where it reads none.
pub uninterp spec fn struct_tag_decoding(bytes: Seq<u8>) -> Option<StructTagView>;

/// The module id that `bcs` reads from `bytes` as a `ModuleId` of
/// `move_core_types`, or `None` where it reads none.
pub uninterp spec fn module_id_decoding(bytes: Seq<u8>) -> Option<ModuleIdView>;

/// The access vector that `move_core_types` gives the struct tag with this
/// name and, if there is one, this type argument; `None` where the name or
/// the argument is no address of that crate or no identifier of it.
pub uninterp spec fn access_vector_encoding(name: TypeNameView, argument: Option<TypeNameView>) -> Option<Seq<u8>>;

/// The identifiers that `bcs` reads from `bytes` as a list of `Identifier`s
/// of `move_core_types`, or `None` where it reads none.
pub uninterp spec fn identifiers_decoding(bytes: Seq<u8>) -> Option<Seq<Seq<u8>>>;

/// The model of a struct tag that may be missing.
pub open spec fn struct_tag_view(tag: Option<StructTag>) -> Option<StructTagView> {
    match tag {
        Some(tag) => Some(tag@),
        None => None,
    }
}

/// The model of a module id that may be missing.
pub open spec fn module_id_view(id: Option<ModuleId>) -> Option<ModuleIdView> {
    match id {
        Some(id) => Some(id@),
        None => None,
    }
}

/// The model of a type name that may be missing.
pub open spec fn type_name_view(name: Option<&TypeName>) -> Option<TypeNameView> {
    match name {
        Some(name) => Some(name@),
        None => None,
    }
}

/// The model of a list of byte strings that may be missing.
pub open spec fn identifiers_view(names: Option<Vec<Vec<u8>>>) -> Option<Seq<Seq<u8>>> {
    match names {
        Some(names) => Some(names@.map_values(|n: Vec<u8>| n@)),
        None => None,
    }
}

/// Calls `bcs::from_bytes` for a `StructTag` of `move_core_types` and hands
/// out the address, the module, the name and the type arguments that it
/// read, each type argument as far as [`TypeTag`] holds it. The result is a
/// function of the bytes alone; nothing else is claimed of it.
#[verifier::external_body]
pub(crate) fn decode_struct_tag(bytes: &[u8]) -> (tag: Option<StructTag>)
    ensures
        struct_tag_view(tag) == struct_tag_decoding(bytes@),
{
    let tag = bcs::from_bytes::<move_core_types::language_storage::StructTag>(bytes).ok()?;
    let type_params = tag.type_params.into_iter().map(|param| match param {
        move_core_types::language_storage::TypeTag::Struct(inner) => TypeTag::Struct {
            address: inner.address.to_vec(),
            module: inner.module.into_bytes(),
            name: inner.name.into_bytes(),
            arity: inner.type_params.len(),
        },
        _ => TypeTag::Other,
    }).collect();
    Some(StructTag { address: tag.address.to_vec(), module: tag.module.into_bytes(), name: tag.name.into_bytes(), type_params })
}

/// Calls `bcs::from_bytes` for a `ModuleId` of `move_core_types` and hands
/// out the address and the name that it read. The result is a function of
/// the bytes alone; nothing else is claimed of it.
#[verifier::external_body]
pub(crate) fn decode_module_id(bytes: &[u8]) -> (id: Option<ModuleId>)
    ensures
        module_id_view(id) == module_id_decoding(bytes@),
{
    let id = bcs::from_bytes::<move_core_types::language_storage::ModuleId>(bytes).ok()?;
    Some(ModuleId { address: id.address().to_vec(), name: id.name().as_bytes().to_vec() })
}

/// The longest module name or struct name that an access vector holds.
pub const MAX_NAME_LENGTH: usize = 0x7fff_ffff;

/// Whether the module name and the struct name of a type are short enough
/// for an access vector.
pub open spec fn short_name(name: TypeNameView) -> bool {
    name.module.len() <= MAX_NAME_LENGTH && name.name.len() <= MAX_NAME_LENGTH
}

/// Whether a type and, if there is one, its type argument have names short
/// enough for an access vector.
pub open spec fn short_names(name: TypeNameView, argument: Option<TypeNameView>) -> bool {
    short_name(name) && (argument is Some ==> short_name(argument->0))
}

/// The path under which the resource of this type and, if there is one,
/// this type argument is stored: its access vector. A type with a name too
/// long for an access vector has no path.
pub open spec fn path_encoding(name: TypeNameView, argument: Option<TypeNameView>) -> Option<Seq<u8>> {
    if short_names(name, argument) {
        access_vector_encoding(name, argument)
    } else {
        None
    }
}

impl TypeName {
    /// Whether the module name and the struct name are short enough for an
    /// access vector.
    pub fn is_short(&self) -> (short: bool)
        ensures
            short == short_name(self@),
    {
        self.module.len() <= MAX_NAME_LENGTH && self.name.len() <= MAX_NAME_LENGTH
    }
}

/// Builds the `StructTag` of `move_core_types` with this name and, if there
/// is one, this type argument, itself a struct without type arguments, and
/// calls `StructTag::access_vector` on it. The result is a function of the
/// name and the argument alone; nothing else is claimed of it. Names too
/// long for `bcs` to write are left out, since `access_vector` panics on
/// them.
#[verifier::external_body]
pub(crate) fn encode_access_vector(name: &TypeName, argument: Option<&TypeName>) -> (path: Option<Vec<u8>>)
    requires
        short_names(name@, type_name_view(argument)),
    ensures
        match path {
            Some(path) => access_vector_encoding(name@, type_name_view(argument)) == Some(path@),
            None => access_vector_encoding(name@, type_name_view(argument)) is None,
        },
{
    let convert = |n: &TypeName| -> Option<move_core_types::language_storage::StructTag> {
        Some(move_core_types::language_storage::StructTag {
            address: move_core_types::account_address::AccountAddress::from_bytes(&n.address).ok()?,
            module: move_core_types::identifier::Identifier::from_utf8(n.module.clone()).ok()?,
            name: move_core_types::identifier::Identifier::from_utf8(n.name.clone()).ok()?,
            type_params: Vec::new(),
        })
    };
    let mut tag = convert(name)?;
    tag.type_params = argument
        .into_iter()
        .map(|inner| convert(inner).map(move_core_types::language_storage::TypeTag::Struct))
        .collect::<Option<Vec<_>>>()?;
    Some(tag.access_vector())
}

/// Calls `bcs::from_bytes` for a list of `Identifier`s of `move_core_types`
/// and hands out the bytes of each. The result is a function of the bytes
/// alone; nothing else is claimed of it.
#[verifier::external_body]
pub(crate) fn decode_identifiers(bytes: &[u8]) -> (names: Option<Vec<Vec<u8>>>)
    ensures
        identifiers_view(names) == identifiers_decoding(bytes@),
{
    let names = bcs::from_bytes::<Vec<move_core_types::identifier::Identifier>>(bytes).ok()?;
    Some(names.into_iter().map(|name| name.into_bytes()).collect())
}

/// What a key names: the first byte says whether a module id or a struct
/// tag follows; a key that is empty, has another first byte, or does not
/// hold what its first byte announces names nothing.
pub open spec fn path_decoding(key: Seq<u8>) -> Option<PathView> {
    if key.len() == 0 {
        None
    } else if key[0] == CODE_TAG {
        match module_id_decoding(key.skip(1)) {
            Some(id) => Some(PathView::Code(id)),
            None => None,
        }
    } else if key[0] == RESOURCE_TAG {
        match struct_tag_decoding(key.skip(1)) {
            Some(tag) => Some(PathView::Resource(tag)),
            None => None,
        }
    } else {
        None
    }
}

/// The model of a path that may be missing.
pub open spec fn path_view(path: Option<Path>) -> Option<PathView> {
    match path {
        Some(path) => Some(path@),
        None => None,
    }
}

/// Reads a key as a path.
pub fn parse_path(key: &[u8]) -> (path: Option<Path>)
    ensures
        path_view(path) == path_decoding(key@),
{
    if key.len() == 0 {
        return None;
    }
    let rest = slice_subrange(key, 1, key.len());
    assert(rest@ =~= key@.skip(1));
    if key[0] == CODE_TAG {
        match decode_module_id(rest) {
            Some(id) => Some(Path::Code(id)),
            None => None,
        }
    } else if key[0] == RESOURCE_TAG {
        match decode_struct_tag(rest) {
            Some(tag) => Some(Path::Resource(tag)),
            None => None,
        }
    } else {
        None
    }
}

/// If a list holds exactly one item, that item; `None` for an empty list
/// and for a list of more than one item.
pub fn collect_exactly_one<T>(items: Vec<T>) -> (only: Option<T>)
    ensures
        match only {
            Some(item) => items.len() == 1 && item == items[0],
            None => items.len() != 1,
        },
{
    let mut items = items;
    if items.len() == 1 {
        items.pop()
    } else {
        None
    }
}

} // verus!
