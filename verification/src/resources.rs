//! The resources and configurations that an account's state is asked for,
//! and the paths under which they are stored. A blob is handed out as it is
//! stored: what it holds is for the caller to read.

use vstd::prelude::*;
use vstd::string::*;
use crate::access_path::{
    decode_identifiers, path_encoding, encode_access_vector, identifiers_decoding, type_name_view, TypeName,
    TypeNameView,
};
use crate::account_state::AccountState;
use crate::bytes::copy_bytes;

verus! {

/// The address under which the core modules are published.
pub open spec fn core_address() -> Seq<u8> {
    seq![0u8, 0u8, 0u8, 0u8, 0u8, 0u8, 0u8, 0u8, 0u8, 0u8, 0u8, 0u8, 0u8, 0u8, 0u8, 1u8]
}

/// The address under which the core modules are published.
pub fn core_code_address() -> (address: Vec<u8>)
    ensures
        address@ == core_address(),
{
    let address = vec![0u8, 0u8, 0u8, 0u8, 0u8, 0u8, 0u8, 0u8, 0u8, 0u8, 0u8, 0u8, 0u8, 0u8, 0u8, 1u8];
    assert(address@ =~= core_address());
    address
}

/// The resources that this library knows by name.
#[derive(Clone, Copy, Debug, PartialEq, Eq, Structural)]
pub enum ResourceKind {
    Account,
    DiemAccount,
    Crsn,
    ChainId,
    Configuration,
    Timestamp,
    ValidatorConfig,
    ValidatorOperatorConfig,
    FreezingBit,
    Block,
    ParentVasp,
    ChildVasp,
    Credential,
    DesignatedDealer,
    Preburn,
    PreburnQueue,
    Balance,
    CurrencyInfo,
}

/// The configurations that this library knows by name.
#[derive(Clone, Copy, Debug, PartialEq, Eq, Structural)]
pub enum ConfigKind {
    ValidatorSet,
    Version,
    VmPublishingOption,
    RegisteredCurrencies,
}

impl ResourceKind {
    /// The module that declares the resource.
    pub open spec fn module_name(self) -> &'static str {
        match self {
            ResourceKind::Account => "Account",
            ResourceKind::DiemAccount => "DiemAccount",
            ResourceKind::Crsn => "CRSN",
            ResourceKind::ChainId => "ChainId",
            ResourceKind::Configuration => "DiemConfig",
            ResourceKind::Timestamp => "DiemTimestamp",
            ResourceKind::ValidatorConfig => "ValidatorConfig",
            ResourceKind::ValidatorOperatorConfig => "ValidatorOperatorConfig",
            ResourceKind::FreezingBit => "AccountFreezing",
            ResourceKind::Block => "DiemBlock",
            ResourceKind::ParentVasp => "VASP",
            ResourceKind::ChildVasp => "VASP",
            ResourceKind::Credential => "DualAttestation",
            ResourceKind::DesignatedDealer => "DesignatedDealer",
            ResourceKind::Preburn => "Diem",
            ResourceKind::PreburnQueue => "Diem",
            ResourceKind::Balance => "DiemAccount",
            ResourceKind::CurrencyInfo => "Diem",
        }
    }

    /// The name of the resource in its module.
    pub open spec fn struct_name(self) -> &'static str {
        match self {
            ResourceKind::Account => "Account",
            ResourceKind::DiemAccount => "DiemAccount",
            ResourceKind::Crsn => "CRSN",
            ResourceKind::ChainId => "ChainId",
            ResourceKind::Configuration => "Configuration",
            ResourceKind::Timestamp => "CurrentTimeMicroseconds",
            ResourceKind::ValidatorConfig => "ValidatorConfig",
            ResourceKind::ValidatorOperatorConfig => "ValidatorOperatorConfig",
            ResourceKind::FreezingBit => "FreezingBit",
            ResourceKind::Block => "BlockMetadata",
            ResourceKind::ParentVasp => "ParentVASP",
            ResourceKind::ChildVasp => "ChildVASP",
            ResourceKind::Credential => "Credential",
            ResourceKind::DesignatedDealer => "Dealer",
            ResourceKind::Preburn => "Preburn",
            ResourceKind::PreburnQueue => "PreburnQueue",
            ResourceKind::Balance => "Balance",
            ResourceKind::CurrencyInfo => "CurrencyInfo",
        }
    }

    /// The type name of the resource.
    pub open spec fn tag_name(self) -> TypeNameView {
        TypeNameView {
            address: core_address(),
            module: self.module_name().spec_bytes(),
            name: self.struct_name().spec_bytes(),
        }
    }

    /// The module that declares the resource.
    pub fn module(&self) -> (name: &'static str)
        ensures
            name == self.module_name(),
    {
        match self {
            ResourceKind::Account => "Account",
            ResourceKind::DiemAccount => "DiemAccount",
            ResourceKind::Crsn => "CRSN",
            ResourceKind::ChainId => "ChainId",
            ResourceKind::Configuration => "DiemConfig",
            ResourceKind::Timestamp => "DiemTimestamp",
            ResourceKind::ValidatorConfig => "ValidatorConfig",
            ResourceKind::ValidatorOperatorConfig => "ValidatorOperatorConfig",
            ResourceKind::FreezingBit => "AccountFreezing",
            ResourceKind::Block => "DiemBlock",
            ResourceKind::ParentVasp => "VASP",
            ResourceKind::ChildVasp => "VASP",
            ResourceKind::Credential => "DualAttestation",
            ResourceKind::DesignatedDealer => "DesignatedDealer",
            ResourceKind::Preburn => "Diem",
            ResourceKind::PreburnQueue => "Diem",
            ResourceKind::Balance => "DiemAccount",
            ResourceKind::CurrencyInfo => "Diem",
        }
    }

    /// The name of the resource in its module.
    pub fn name(&self) -> (name: &'static str)
        ensures
            name == self.struct_name(),
    {
        match self {
            ResourceKind::Account => "Account",
            ResourceKind::DiemAccount => "DiemAccount",
            ResourceKind::Crsn => "CRSN",
            ResourceKind::ChainId => "ChainId",
            ResourceKind::Configuration => "Configuration",
            ResourceKind::Timestamp => "CurrentTimeMicroseconds",
            ResourceKind::ValidatorConfig => "ValidatorConfig",
            ResourceKind::ValidatorOperatorConfig => "ValidatorOperatorConfig",
            ResourceKind::FreezingBit => "FreezingBit",
            ResourceKind::Block => "BlockMetadata",
            ResourceKind::ParentVasp => "ParentVASP",
            ResourceKind::ChildVasp => "ChildVASP",
            ResourceKind::Credential => "Credential",
            ResourceKind::DesignatedDealer => "Dealer",
            ResourceKind::Preburn => "Preburn",
            ResourceKind::PreburnQueue => "PreburnQueue",
            ResourceKind::Balance => "Balance",
            ResourceKind::CurrencyInfo => "CurrencyInfo",
        }
    }

    /// The type name of the resource.
    pub fn struct_tag(&self) -> (name: TypeName)
        ensures
            name@ == self.tag_name(),
    {
        TypeName {
            address: core_code_address(),
            module: copy_bytes(self.module().as_bytes()),
            name: copy_bytes(self.name().as_bytes()),
        }
    }
}

impl ConfigKind {
    /// The name under which the configuration is published.
    pub open spec fn config_name(self) -> &'static str {
        match self {
            ConfigKind::ValidatorSet => "DiemSystem",
            ConfigKind::Version => "DiemVersion",
            ConfigKind::VmPublishingOption => "DiemTransactionPublishingOption",
            ConfigKind::RegisteredCurrencies => "RegisteredCurrencies",
        }
    }

    /// The type name of the configuration: a struct of its own module.
    pub open spec fn tag_name(self) -> TypeNameView {
        TypeNameView {
            address: core_address(),
            module: self.config_name().spec_bytes(),
            name: self.config_name().spec_bytes(),
        }
    }

    /// The name under which the configuration is published.
    pub fn name(&self) -> (name: &'static str)
        ensures
            name == self.config_name(),
    {
        match self {
            ConfigKind::ValidatorSet => "DiemSystem",
            ConfigKind::Version => "DiemVersion",
            ConfigKind::VmPublishingOption => "DiemTransactionPublishingOption",
            ConfigKind::RegisteredCurrencies => "RegisteredCurrencies",
        }
    }

    /// The type name of the configuration.
    pub fn struct_tag(&self) -> (name: TypeName)
        ensures
            name@ == self.tag_name(),
    {
        TypeName {
            address: core_code_address(),
            module: copy_bytes(self.name().as_bytes()),
            name: copy_bytes(self.name().as_bytes()),
        }
    }
}

/// The type name of the struct that wraps a configuration in the older
/// layout.
pub open spec fn config_wrapper() -> TypeNameView {
    TypeNameView { address: core_address(), module: "DiemConfig".spec_bytes(), name: "DiemConfig".spec_bytes() }
}

/// The type name of the struct that wraps a configuration in the older
/// layout.
pub fn config_wrapper_tag() -> (name: TypeName)
    ensures
        name@ == config_wrapper(),
{
    TypeName {
        address: core_code_address(),
        module: copy_bytes("DiemConfig".as_bytes()),
        name: copy_bytes("DiemConfig".as_bytes()),
    }
}

/// The path of a resource without type arguments.
pub open spec fn resource_path(kind: ResourceKind) -> Option<Seq<u8>> {
    path_encoding(kind.tag_name(), None)
}

/// The path of a configuration: that of the struct which carries its name.
pub open spec fn config_path(kind: ConfigKind) -> Option<Seq<u8>> {
    path_encoding(kind.tag_name(), None)
}

/// The path of a configuration in the older layout: that of the wrapper
/// with the configuration's type as its argument.
pub open spec fn wrapped_config_path(kind: ConfigKind) -> Option<Seq<u8>> {
    path_encoding(config_wrapper(), Some(kind.tag_name()))
}

/// The path of the information on the currency with this code.
pub open spec fn currency_info_path(code: Seq<u8>) -> Option<Seq<u8>> {
    path_encoding(
        ResourceKind::CurrencyInfo.tag_name(),
        Some(TypeNameView { address: core_address(), module: code, name: code }),
    )
}

/// What a state stores under a path, where there is a path.
pub open spec fn stored(map: Map<Seq<u8>, Seq<u8>>, path: Option<Seq<u8>>) -> Option<Seq<u8>> {
    match path {
        Some(path) => if map.contains_key(path) {
            Some(map[path])
        } else {
            None
        },
        None => None,
    }
}

/// The model of a blob that may be missing.
pub open spec fn blob_view(found: Option<&Vec<u8>>) -> Option<Seq<u8>> {
    match found {
        Some(blob) => Some(blob@),
        None => None,
    }
}

/// What a state stores for a configuration: what stands under its path, or
/// else what stands under its path in the older layout.
pub open spec fn stored_config(map: Map<Seq<u8>, Seq<u8>>, kind: ConfigKind) -> Option<Seq<u8>> {
    match stored(map, config_path(kind)) {
        Some(blob) => Some(blob),
        None => stored(map, wrapped_config_path(kind)),
    }
}

/// Whether the currency at place `i` of `codes` is the first on which the
/// state stores no information.
pub open spec fn first_missing(map: Map<Seq<u8>, Seq<u8>>, codes: Seq<Seq<u8>>, i: int) -> bool {
    &&& 0 <= i < codes.len()
    &&& stored(map, currency_info_path(codes[i])) is None
    &&& forall|k: int| 0 <= k < i ==> stored(map, currency_info_path(#[trigger] codes[k])) is Some
}

/// Why the information on the registered currencies cannot be handed out.
#[derive(Clone, Debug, PartialEq, Eq)]
pub enum CurrencyError {
    /// The list of registered currencies cannot be read.
    Malformed,
    /// No information is stored on the currency with this code.
    NotFound(Vec<u8>),
}

impl AccountState {
    /// The blob stored under the path of the struct with this name and, if
    /// there is one, this type argument.
    pub fn lookup(&self, name: &TypeName, argument: Option<&TypeName>) -> (found: Option<&Vec<u8>>)
        requires
            self.wf(),
        ensures
            blob_view(found) == stored(self@, path_encoding(name@, type_name_view(argument))),
    {
        let short = name.is_short() && match argument {
            Some(argument) => argument.is_short(),
            None => true,
        };
        if !short {
            return None;
        }
        match encode_access_vector(name, argument) {
            Some(path) => self.get(path.as_slice()),
            None => None,
        }
    }

    /// The blob stored under `key`.
    pub fn get_resource_impl(&self, key: &[u8]) -> (found: Option<&Vec<u8>>)
        requires
            self.wf(),
        ensures
            blob_view(found) == stored(self@, Some(key@)),
    {
        self.get(key)
    }

    /// The blob of a resource.
    pub fn get_resource(&self, kind: ResourceKind) -> (found: Option<&Vec<u8>>)
        requires
            self.wf(),
        ensures
            blob_view(found) == stored(self@, resource_path(kind)),
    {
        let name = kind.struct_tag();
        self.lookup(&name, None)
    }

    /// The blob of a configuration: what stands under its path, or else
    /// what stands under its path in the older layout.
    pub fn get_config(&self, kind: ConfigKind) -> (found: Option<&Vec<u8>>)
        requires
            self.wf(),
        ensures
            blob_view(found) == stored_config(self@, kind),
    {
        let name = kind.struct_tag();
        match self.lookup(&name, None) {
            Some(blob) => Some(blob),
            None => {
                let wrapper = config_wrapper_tag();
                self.lookup(&wrapper, Some(&name))
            },
        }
    }

    /// The blob that holds the account resource, and the kind it is stored
    /// as: the account resource itself, or else the older account resource
    /// that stands for it.
    pub fn get_account_resource(&self) -> (found: Option<(ResourceKind, &Vec<u8>)>)
        requires
            self.wf(),
        ensures
            match found {
                Some((kind, blob)) => {
                    &&& stored(self@, resource_path(kind)) == Some(blob@)
                    &&& kind == ResourceKind::Account || (kind == ResourceKind::DiemAccount && stored(
                        self@,
                        resource_path(ResourceKind::Account),
                    ) is None)
                },
                None => {
                    &&& stored(self@, resource_path(ResourceKind::Account)) is None
                    &&& stored(self@, resource_path(ResourceKind::DiemAccount)) is None
                },
            },
    {
        match self.get_resource(ResourceKind::Account) {
            Some(blob) => Some((ResourceKind::Account, blob)),
            None => match self.get_resource(ResourceKind::DiemAccount) {
                Some(blob) => Some((ResourceKind::DiemAccount, blob)),
                None => None,
            },
        }
    }

    /// The blob that holds the address of the account: that of the account
    /// resource.
    pub fn get_account_address(&self) -> (found: Option<(ResourceKind, &Vec<u8>)>)
        requires
            self.wf(),
        ensures
            match found {
                Some((kind, blob)) => {
                    &&& stored(self@, resource_path(kind)) == Some(blob@)
                    &&& kind == ResourceKind::Account || (kind == ResourceKind::DiemAccount && stored(
                        self@,
                        resource_path(ResourceKind::Account),
                    ) is None)
                },
                None => {
                    &&& stored(self@, resource_path(ResourceKind::Account)) is None
                    &&& stored(self@, resource_path(ResourceKind::DiemAccount)) is None
                },
            },
    {
        self.get_account_resource()
    }

    /// The blob of the older account resource.
    pub fn get_diem_account_resource(&self) -> (found: Option<&Vec<u8>>)
        requires
            self.wf(),
        ensures
            blob_view(found) == stored(self@, resource_path(ResourceKind::DiemAccount)),
    {
        self.get_resource(ResourceKind::DiemAccount)
    }

    /// The blob of the sequence nonce resource.
    pub fn get_crsn_resource(&self) -> (found: Option<&Vec<u8>>)
        requires
            self.wf(),
        ensures
            blob_view(found) == stored(self@, resource_path(ResourceKind::Crsn)),
    {
        self.get_resource(ResourceKind::Crsn)
    }

    /// The blob of the chain id.
    pub fn get_chain_id_resource(&self) -> (found: Option<&Vec<u8>>)
        requires
            self.wf(),
        ensures
            blob_view(found) == stored(self@, resource_path(ResourceKind::ChainId)),
    {
        self.get_resource(ResourceKind::ChainId)
    }

    /// The blob of the configuration resource.
    pub fn get_configuration_resource(&self) -> (found: Option<&Vec<u8>>)
        requires
            self.wf(),
        ensures
            blob_view(found) == stored(self@, resource_path(ResourceKind::Configuration)),
    {
        self.get_resource(ResourceKind::Configuration)
    }

    /// The blob of the timestamp.
    pub fn get_timestamp_resource(&self) -> (found: Option<&Vec<u8>>)
        requires
            self.wf(),
        ensures
            blob_view(found) == stored(self@, resource_path(ResourceKind::Timestamp)),
    {
        self.get_resource(ResourceKind::Timestamp)
    }

    /// The blob of the validator configuration.
    pub fn get_validator_config_resource(&self) -> (found: Option<&Vec<u8>>)
        requires
            self.wf(),
        ensures
            blob_view(found) == stored(self@, resource_path(ResourceKind::ValidatorConfig)),
    {
        self.get_resource(ResourceKind::ValidatorConfig)
    }

    /// The blob of the validator operator configuration.
    pub fn get_validator_operator_config_resource(&self) -> (found: Option<&Vec<u8>>)
        requires
            self.wf(),
        ensures
            blob_view(found) == stored(self@, resource_path(ResourceKind::ValidatorOperatorConfig)),
    {
        self.get_resource(ResourceKind::ValidatorOperatorConfig)
    }

    /// The blob of the freezing bit.
    pub fn get_freezing_bit(&self) -> (found: Option<&Vec<u8>>)
        requires
            self.wf(),
        ensures
            blob_view(found) == stored(self@, resource_path(ResourceKind::FreezingBit)),
    {
        self.get_resource(ResourceKind::FreezingBit)
    }

    /// The blob of the block metadata.
    pub fn get_block_resource(&self) -> (found: Option<&Vec<u8>>)
        requires
            self.wf(),
        ensures
            blob_view(found) == stored(self@, resource_path(ResourceKind::Block)),
    {
        self.get_resource(ResourceKind::Block)
    }

    /// The blob of the validator set.
    pub fn get_validator_set(&self) -> (found: Option<&Vec<u8>>)
        requires
            self.wf(),
        ensures
            blob_view(found) == stored_config(self@, ConfigKind::ValidatorSet),
    {
        self.get_config(ConfigKind::ValidatorSet)
    }

    /// The blob of the version.
    pub fn get_version(&self) -> (found: Option<&Vec<u8>>)
        requires
            self.wf(),
        ensures
            blob_view(found) == stored_config(self@, ConfigKind::Version),
    {
        self.get_config(ConfigKind::Version)
    }

    /// The blob of the publishing option, which is looked for in the older
    /// layout only.
    pub fn get_vm_publishing_option(&self) -> (found: Option<&Vec<u8>>)
        requires
            self.wf(),
        ensures
            blob_view(found) == stored(self@, wrapped_config_path(ConfigKind::VmPublishingOption)),
    {
        let name = ConfigKind::VmPublishingOption.struct_tag();
        let wrapper = config_wrapper_tag();
        self.lookup(&wrapper, Some(&name))
    }

    /// The blob of the information on each registered currency, in the
    /// order in which the currencies are registered. Where no list of
    /// registered currencies is stored there are none.
    pub fn get_registered_currency_info_resources(&self) -> (result: Result<Vec<&Vec<u8>>, CurrencyError>)
        requires
            self.wf(),
        ensures
            match stored_config(self@, ConfigKind::RegisteredCurrencies) {
                None => result matches Ok(infos) && infos.len() == 0,
                Some(list) => match identifiers_decoding(list) {
                    None => result == Err::<Vec<&Vec<u8>>, CurrencyError>(CurrencyError::Malformed),
                    Some(codes) => match result {
                        Ok(infos) => {
                            &&& infos.len() == codes.len()
                            &&& forall|i: int|
                                0 <= i < codes.len() ==> stored(self@, currency_info_path(codes[i])) == Some(
                                    (#[trigger] infos[i])@,
                                )
                        },
                        Err(CurrencyError::NotFound(code)) => exists|i: int| #[trigger]
                            first_missing(self@, codes, i) && codes[i] == code@,
                        Err(CurrencyError::Malformed) => false,
                    },
                },
            },
    {
        let list = match self.get_config(ConfigKind::RegisteredCurrencies) {
            Some(list) => list,
            None => {
                return Ok(Vec::new());
            },
        };
        let mut codes = match decode_identifiers(list.as_slice()) {
            Some(codes) => codes,
            None => {
                return Err(CurrencyError::Malformed);
            },
        };
        let ghost names = identifiers_decoding(list@)->0;
        let info = ResourceKind::CurrencyInfo.struct_tag();
        let mut infos: Vec<&Vec<u8>> = Vec::new();
        let mut i: usize = 0;
        while i < codes.len()
            invariant
                self.wf(),
                i <= codes.len(),
                infos.len() == i,
                info@ == ResourceKind::CurrencyInfo.tag_name(),
                stored_config(self@, ConfigKind::RegisteredCurrencies) == Some(list@),
                identifiers_decoding(list@) == Some(names),
                names.len() == codes.len(),
                forall|k: int| 0 <= k < codes.len() ==> (#[trigger] codes[k])@ == names[k],
                forall|k: int| 0 <= k < i ==> stored(self@, currency_info_path(names[k])) == Some((#[trigger] infos[k])@),
            decreases codes.len() - i,
        {
            let code = TypeName {
                address: core_code_address(),
                module: copy_bytes(codes[i].as_slice()),
                name: copy_bytes(codes[i].as_slice()),
            };
            match self.lookup(&info, Some(&code)) {
                Some(blob) => {
                    infos.push(blob);
                },
                None => {
                    let missing = copy_bytes(codes[i].as_slice());
                    proof {
                        assert(code@ == (TypeNameView { address: core_address(), module: names[i as int], name: names[i as int] }));
                        assert(names[i as int] == missing@);
                        assert(stored(self@, currency_info_path(names[i as int])) is None);
                        assert forall|k: int| 0 <= k < i implies stored(
                            self@,
                            currency_info_path(#[trigger] names[k]),
                        ) is Some by {
                            assert(stored(self@, currency_info_path(names[k])) == Some(infos[k]@));
                        }
                        assert(first_missing(self@, names, i as int));
                    }
                    return Err(CurrencyError::NotFound(missing));
                },
            }
            i += 1;
        }
        Ok(infos)
    }
}

} // verus!
