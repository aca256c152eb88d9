//! What an account's state holds by kind: its modules, its resources, its
//! balances by currency, and the role of the account.

use vstd::prelude::*;
use crate::access_path::{
    collect_exactly_one, parse_path, path_decoding, Path, PathView, StructTag, StructTagView, TypeName, TypeNameView,
    TypeTag, TypeTagView,
};
use crate::account_state::AccountState;
use crate::bytes::{bytes_eq, copy_bytes};
use crate::resources::{core_address, core_code_address, resource_path, stored, ResourceKind};

verus! {

/// Whether every key of a listing is a path.
pub open spec fn paths_valid(items: Seq<(Seq<u8>, Seq<u8>)>) -> bool {
    forall|i: int| 0 <= i < items.len() ==> path_decoding((#[trigger] items[i]).0) is Some
}

/// The blobs of a listing that are stored as code, in the order of the
/// listing.
pub open spec fn module_blobs(items: Seq<(Seq<u8>, Seq<u8>)>) -> Seq<Seq<u8>>
    decreases items.len(),
{
    if items.len() == 0 {
        Seq::empty()
    } else {
        let front = module_blobs(items.drop_last());
        match path_decoding(items.last().0) {
            Some(PathView::Code(_)) => front.push(items.last().1),
            _ => front,
        }
    }
}

/// Whether a struct tag is of the type with this name, whatever its type
/// arguments.
pub open spec fn names_type(tag: StructTagView, name: TypeNameView) -> bool {
    tag.address == name.address && tag.module == name.module && tag.name == name.name
}

/// The resources of a listing with their struct tags, in the order of the
/// listing: all of them, or those of one type. A key that is no path is
/// passed over.
pub open spec fn resources_of(items: Seq<(Seq<u8>, Seq<u8>)>, of_type: Option<TypeNameView>) -> Seq<
    (StructTagView, Seq<u8>),
>
    decreases items.len(),
{
    if items.len() == 0 {
        Seq::empty()
    } else {
        let front = resources_of(items.drop_last(), of_type);
        match path_decoding(items.last().0) {
            Some(PathView::Resource(tag)) => if of_type is None || names_type(tag, of_type->0) {
                front.push((tag, items.last().1))
            } else {
                front
            },
            _ => front,
        }
    }
}

/// The currency code that a struct tag carries: the name of its one type
/// argument, where that is a struct of the core address without type
/// arguments whose module has the name of the struct.
pub open spec fn currency_code(tag: StructTagView) -> Option<Seq<u8>> {
    if tag.type_params.len() == 1 {
        match tag.type_params[0] {
            TypeTagView::Struct { address, module, name, arity } => if address == core_address() && module == name
                && arity == 0 {
                Some(name)
            } else {
                None
            },
            TypeTagView::Other => None,
        }
    } else {
        None
    }
}

/// The blobs of a list of resources with the currency code of each, or
/// `None` where one of them carries no currency code.
pub open spec fn by_currency(entries: Seq<(StructTagView, Seq<u8>)>) -> Option<Seq<(Seq<u8>, Seq<u8>)>>
    decreases entries.len(),
{
    if entries.len() == 0 {
        Some(Seq::empty())
    } else {
        match (by_currency(entries.drop_last()), currency_code(entries.last().0)) {
            (Some(front), Some(code)) => Some(front.push((code, entries.last().1))),
            _ => None,
        }
    }
}

/// The models of a list of blobs.
pub open spec fn blobs_view(blobs: Seq<&Vec<u8>>) -> Seq<Seq<u8>> {
    blobs.map_values(|b: &Vec<u8>| b@)
}

/// The models of a list of resources.
pub open spec fn resources_view(entries: Seq<(StructTag, &Vec<u8>)>) -> Seq<(StructTagView, Seq<u8>)> {
    entries.map_values(|e: (StructTag, &Vec<u8>)| (e.0@, e.1@))
}

/// The models of a list of balances.
pub open spec fn balances_view(entries: Seq<(Vec<u8>, Vec<u8>)>) -> Seq<(Seq<u8>, Seq<u8>)> {
    entries.map_values(|e: (Vec<u8>, Vec<u8>)| (e.0@, e.1@))
}

/// A resource that is filed by currency carries no currency code.
#[derive(Clone, Copy, Debug, PartialEq, Eq, Structural)]
pub struct NoCurrencyCode;

/// The preburn balances of a designated dealer: in the one layout or in
/// the other, each blob with its currency code.
#[derive(Clone, Debug, PartialEq, Eq)]
pub enum DesignatedDealerPreburns {
    Preburn(Vec<(Vec<u8>, Vec<u8>)>),
    PreburnQueue(Vec<(Vec<u8>, Vec<u8>)>),
}

/// The role of an account, with the blobs that make it up.
#[derive(Clone, Debug, PartialEq, Eq)]
pub enum AccountRole {
    ParentVASP { vasp: Vec<u8>, credential: Vec<u8> },
    ChildVASP(Vec<u8>),
    DesignatedDealer { dd_credential: Vec<u8>, preburn_balances: DesignatedDealerPreburns, designated_dealer: Vec<u8> },
    Unknown,
}

/// The model of [`DesignatedDealerPreburns`].
pub enum PreburnsView {
    Preburn(Seq<(Seq<u8>, Seq<u8>)>),
    PreburnQueue(Seq<(Seq<u8>, Seq<u8>)>),
}

/// The model of an [`AccountRole`].
pub enum RoleView {
    ParentVASP { vasp: Seq<u8>, credential: Seq<u8> },
    ChildVASP(Seq<u8>),
    DesignatedDealer { dd_credential: Seq<u8>, preburn_balances: PreburnsView, designated_dealer: Seq<u8> },
    Unknown,
}

impl View for DesignatedDealerPreburns {
    type V = PreburnsView;

    open spec fn view(&self) -> PreburnsView {
        match self {
            DesignatedDealerPreburns::Preburn(balances) => PreburnsView::Preburn(balances_view(balances@)),
            DesignatedDealerPreburns::PreburnQueue(balances) => PreburnsView::PreburnQueue(balances_view(balances@)),
        }
    }
}

impl View for AccountRole {
    type V = RoleView;

    open spec fn view(&self) -> RoleView {
        match self {
            AccountRole::ParentVASP { vasp, credential } => RoleView::ParentVASP {
                vasp: vasp@,
                credential: credential@,
            },
            AccountRole::ChildVASP(blob) => RoleView::ChildVASP(blob@),
            AccountRole::DesignatedDealer { dd_credential, preburn_balances, designated_dealer } => RoleView::DesignatedDealer {
                dd_credential: dd_credential@,
                preburn_balances: preburn_balances@,
                designated_dealer: designated_dealer@,
            },
            AccountRole::Unknown => RoleView::Unknown,
        }
    }
}

/// The model of a role that may be missing.
pub open spec fn role_view(role: Option<AccountRole>) -> Option<RoleView> {
    match role {
        Some(role) => Some(role@),
        None => None,
    }
}

/// The preburn balances of a designated dealer, where its state holds them
/// in one layout and not in the other.
pub open spec fn preburns_of(items: Seq<(Seq<u8>, Seq<u8>)>) -> Option<PreburnsView> {
    match (
        by_currency(resources_of(items, Some(ResourceKind::Preburn.tag_name()))),
        by_currency(resources_of(items, Some(ResourceKind::PreburnQueue.tag_name()))),
    ) {
        (Some(preburns), Some(queues)) => if preburns.len() == 0 && queues.len() > 0 {
            Some(PreburnsView::PreburnQueue(queues))
        } else if preburns.len() > 0 && queues.len() == 0 {
            Some(PreburnsView::Preburn(preburns))
        } else {
            None
        },
        _ => None,
    }
}

/// The role of the account with this state. A parent VASP holds its own
/// resource and a credential; a child VASP holds its own resource; a
/// designated dealer holds its own resource, a credential and preburn
/// balances in one layout; an account that holds none of the three
/// resources has the unknown role. An account that holds the resource of a
/// role and lacks what goes with it has no role.
pub open spec fn role_of(map: Map<Seq<u8>, Seq<u8>>, items: Seq<(Seq<u8>, Seq<u8>)>) -> Option<RoleView> {
    let credential = stored(map, resource_path(ResourceKind::Credential));
    if stored(map, resource_path(ResourceKind::ParentVasp)) is Some {
        match credential {
            Some(credential) => Some(
                RoleView::ParentVASP {
                    vasp: stored(map, resource_path(ResourceKind::ParentVasp))->0,
                    credential,
                },
            ),
            None => None,
        }
    } else if stored(map, resource_path(ResourceKind::ChildVasp)) is Some {
        Some(RoleView::ChildVASP(stored(map, resource_path(ResourceKind::ChildVasp))->0))
    } else if stored(map, resource_path(ResourceKind::DesignatedDealer)) is Some {
        match (credential, preburns_of(items)) {
            (Some(dd_credential), Some(preburn_balances)) => Some(
                RoleView::DesignatedDealer {
                    dd_credential,
                    preburn_balances,
                    designated_dealer: stored(map, resource_path(ResourceKind::DesignatedDealer))->0,
                },
            ),
            _ => None,
        }
    } else {
        Some(RoleView::Unknown)
    }
}

/// Whether a struct tag is of the type with this name.
pub fn tag_names_type(tag: &StructTag, name: &TypeName) -> (same: bool)
    ensures
        same <==> names_type(tag@, name@),
{
    bytes_eq(tag.address.as_slice(), name.address.as_slice()) && bytes_eq(tag.module.as_slice(), name.module.as_slice())
        && bytes_eq(tag.name.as_slice(), name.name.as_slice())
}

/// The currency code that a struct tag carries.
pub fn currency_code_of(tag: StructTag) -> (code: Option<Vec<u8>>)
    ensures
        match code {
            Some(code) => currency_code(tag@) == Some(code@),
            None => currency_code(tag@) is None,
        },
{
    let ghost params = tag@.type_params;
    match collect_exactly_one(tag.type_params) {
        Some(TypeTag::Struct { address, module, name, arity }) => {
            assert(params[0] == (TypeTagView::Struct { address: address@, module: module@, name: name@, arity }));
            let core = core_code_address();
            if bytes_eq(address.as_slice(), core.as_slice()) && bytes_eq(module.as_slice(), name.as_slice()) && arity
                == 0 {
                Some(name)
            } else {
                None
            }
        },
        Some(TypeTag::Other) => {
            assert(params[0] == TypeTagView::Other);
            None
        },
        None => None,
    }
}

/// Files a list of resources by currency code.
pub fn file_by_currency(entries: Vec<(StructTag, &Vec<u8>)>) -> (result: Result<Vec<(Vec<u8>, Vec<u8>)>, NoCurrencyCode>)
    ensures
        match result {
            Ok(balances) => by_currency(resources_view(entries@)) == Some(balances_view(balances@)),
            Err(_) => by_currency(resources_view(entries@)) is None,
        },
{
    let ghost all = resources_view(entries@);
    let mut entries = entries;
    let mut reversed: Vec<(Vec<u8>, Vec<u8>)> = Vec::new();
    let mut failed = false;
    while entries.len() > 0
        invariant
            entries.len() <= all.len(),
            resources_view(entries@) == all.take(entries.len() as int),
            reversed.len() + entries.len() == all.len() || failed,
            failed ==> exists|i: int| 0 <= i < all.len() && currency_code((#[trigger] all[i]).0) is None,
            !failed ==> forall|r: int|
                0 <= r < reversed.len() ==> currency_code(all[all.len() - 1 - r].0) == Some((#[trigger] reversed[r]).0@)
                    && reversed[r].1@ == all[all.len() - 1 - r].1,
        decreases entries.len(),
    {
        let ghost at = entries.len() - 1;
        let ghost before = entries@;
        match entries.pop() {
            Some((tag, blob)) => {
                assert(all[at] == resources_view(before)[at]);
                assert(resources_view(entries@) =~= all.take(entries.len() as int));
                match currency_code_of(tag) {
                    Some(code) => {
                        if !failed {
                            reversed.push((code, copy_bytes(blob.as_slice())));
                        }
                    },
                    None => {
                        failed = true;
                        assert(currency_code(all[at].0) is None);
                    },
                }
            },
            None => {},
        }
    }
    if failed {
        proof {
            let i = choose|i: int| 0 <= i < all.len() && currency_code((#[trigger] all[i]).0) is None;
            lemma_by_currency_none(all, i);
        }
        return Err(NoCurrencyCode);
    }
    let ghost pairs = Seq::new(all.len(), |i: int| (currency_code(all[i].0)->0, all[i].1));
    let mut balances: Vec<(Vec<u8>, Vec<u8>)> = Vec::new();
    while reversed.len() > 0
        invariant
            balances.len() + reversed.len() == all.len(),
            forall|r: int|
                0 <= r < reversed.len() ==> currency_code(all[all.len() - 1 - r].0) == Some((#[trigger] reversed[r]).0@)
                    && reversed[r].1@ == all[all.len() - 1 - r].1,
            forall|i: int|
                0 <= i < balances.len() ==> currency_code(all[i].0) == Some((#[trigger] balances[i]).0@) && balances[i].1@
                    == all[i].1,
        decreases reversed.len(),
    {
        match reversed.pop() {
            Some(pair) => {
                balances.push(pair);
            },
            None => {},
        }
    }
    proof {
        assert forall|i: int| 0 <= i < all.len() implies currency_code((#[trigger] all[i]).0) is Some by {
            assert(currency_code(all[i].0) == Some(balances[i].0@));
        }
        lemma_by_currency_some(all, all.len() as int);
        assert(all.take(all.len() as int) =~= all);
        assert(balances_view(balances@) =~= Seq::new(all.len(), |i: int| (currency_code(all[i].0)->0, all[i].1)));
    }
    Ok(balances)
}

/// A list with a resource that carries no currency code is not filed.
pub proof fn lemma_by_currency_none(entries: Seq<(StructTagView, Seq<u8>)>, i: int)
    requires
        0 <= i < entries.len(),
        currency_code(entries[i].0) is None,
    ensures
        by_currency(entries) is None,
    decreases entries.len(),
{
    if i < entries.len() - 1 {
        lemma_by_currency_none(entries.drop_last(), i);
    }
}

/// A list whose resources all carry a currency code is filed in its order.
pub proof fn lemma_by_currency_some(entries: Seq<(StructTagView, Seq<u8>)>, upto: int)
    requires
        0 <= upto <= entries.len(),
        forall|i: int| 0 <= i < upto ==> currency_code((#[trigger] entries[i]).0) is Some,
    ensures
        by_currency(entries.take(upto)) == Some(
            Seq::new(upto as nat, |i: int| (currency_code(entries[i].0)->0, entries[i].1)),
        ),
    decreases upto,
{
    let front = entries.take(upto);
    let filed = Seq::new(upto as nat, |i: int| (currency_code(entries[i].0)->0, entries[i].1));
    if upto == 0 {
        assert(filed =~= Seq::empty());
    } else {
        lemma_by_currency_some(entries, upto - 1);
        assert(front.drop_last() =~= entries.take(upto - 1));
        assert(front.last() == entries[upto - 1]);
        assert(filed =~= Seq::new((upto - 1) as nat, |i: int| (currency_code(entries[i].0)->0, entries[i].1)).push(
            (currency_code(entries[upto - 1].0)->0, entries[upto - 1].1),
        ));
    }
}

impl AccountState {
    /// Whether every key of the state is a path.
    pub fn has_valid_paths(&self) -> (valid: bool)
        requires
            self.wf(),
        ensures
            valid == paths_valid(self.listing()),
    {
        let items = self.iter();
        let mut i: usize = 0;
        while i < items.len()
            invariant
                i <= items.len(),
                items@.map_values(|item: (&Vec<u8>, &Vec<u8>)| (item.0@, item.1@)) == self.listing(),
                forall|k: int| 0 <= k < i ==> path_decoding((#[trigger] self.listing()[k]).0) is Some,
            decreases items.len() - i,
        {
            assert(self.listing()[i as int].0 == items[i as int].0@);
            if parse_path(items[i].0.as_slice()).is_none() {
                return false;
            }
            i += 1;
        }
        true
    }

    /// The modules stored under this account, by rising key.
    pub fn get_modules(&self) -> (modules: Vec<&Vec<u8>>)
        requires
            self.wf(),
            paths_valid(self.listing()),
        ensures
            blobs_view(modules@) == module_blobs(self.listing()),
    {
        let ghost listing = self.listing();
        let items = self.iter();
        let mut modules: Vec<&Vec<u8>> = Vec::new();
        let mut i: usize = 0;
        assert(listing.take(0) =~= Seq::empty());
        while i < items.len()
            invariant
                i <= items.len(),
                items@.map_values(|item: (&Vec<u8>, &Vec<u8>)| (item.0@, item.1@)) == listing,
                blobs_view(modules@) == module_blobs(listing.take(i as int)),
            decreases items.len() - i,
        {
            proof {
                let next = listing.take(i as int + 1);
                assert(next.drop_last() =~= listing.take(i as int));
                assert(next.last() == listing[i as int]);
                assert(listing[i as int] == (items[i as int].0@, items[i as int].1@));
            }
            let ghost before = blobs_view(modules@);
            match parse_path(items[i].0.as_slice()) {
                Some(Path::Code(_)) => {
                    modules.push(items[i].1);
                    assert(blobs_view(modules@) =~= before.push(items[i as int].1@));
                },
                _ => {},
            }
            i += 1;
        }
        assert(listing.take(items.len() as int) =~= listing);
        modules
    }

    /// The modules stored under this account, or `None` where a key of the
    /// state is no path.
    pub fn try_get_modules(&self) -> (modules: Option<Vec<&Vec<u8>>>)
        requires
            self.wf(),
        ensures
            match modules {
                Some(modules) => paths_valid(self.listing()) && blobs_view(modules@) == module_blobs(self.listing()),
                None => !paths_valid(self.listing()),
            },
    {
        if self.has_valid_paths() {
            Some(self.get_modules())
        } else {
            None
        }
    }

    /// The modules stored under this account, by rising key, taken out of
    /// the state.
    pub fn into_modules(self) -> (modules: Vec<Vec<u8>>)
        requires
            self.wf(),
            paths_valid(self.listing()),
        ensures
            modules@.map_values(|m: Vec<u8>| m@) == module_blobs(self.listing()),
    {
        let found = self.get_modules();
        let mut modules: Vec<Vec<u8>> = Vec::new();
        let mut i: usize = 0;
        while i < found.len()
            invariant
                i <= found.len(),
                modules.len() == i,
                forall|k: int| 0 <= k < i ==> (#[trigger] modules[k])@ == found[k]@,
            decreases found.len() - i,
        {
            modules.push(copy_bytes(found[i].as_slice()));
            i += 1;
        }
        assert(modules@.map_values(|m: Vec<u8>| m@) =~= blobs_view(found@));
        modules
    }

    /// The modules stored under this account, taken out of the state, or
    /// `None` where a key of the state is no path.
    pub fn try_into_modules(self) -> (modules: Option<Vec<Vec<u8>>>)
        requires
            self.wf(),
        ensures
            match modules {
                Some(modules) => paths_valid(self.listing()) && modules@.map_values(|m: Vec<u8>| m@) == module_blobs(
                    self.listing(),
                ),
                None => !paths_valid(self.listing()),
            },
    {
        if self.has_valid_paths() {
            Some(self.into_modules())
        } else {
            None
        }
    }

    /// The resources of the state with their struct tags, by rising key:
    /// all of them, or those of one type.
    fn select_resources(&self, of_type: Option<&TypeName>) -> (resources: Vec<(StructTag, &Vec<u8>)>)
        requires
            self.wf(),
        ensures
            resources_view(resources@) == resources_of(self.listing(), crate::access_path::type_name_view(of_type)),
    {
        let ghost listing = self.listing();
        let ghost filter = crate::access_path::type_name_view(of_type);
        let items = self.iter();
        let mut resources: Vec<(StructTag, &Vec<u8>)> = Vec::new();
        let mut i: usize = 0;
        assert(listing.take(0) =~= Seq::empty());
        while i < items.len()
            invariant
                i <= items.len(),
                filter == crate::access_path::type_name_view(of_type),
                items@.map_values(|item: (&Vec<u8>, &Vec<u8>)| (item.0@, item.1@)) == listing,
                resources_view(resources@) == resources_of(listing.take(i as int), filter),
            decreases items.len() - i,
        {
            proof {
                let next = listing.take(i as int + 1);
                assert(next.drop_last() =~= listing.take(i as int));
                assert(next.last() == listing[i as int]);
                assert(listing[i as int] == (items[i as int].0@, items[i as int].1@));
            }
            let ghost before = resources_view(resources@);
            match parse_path(items[i].0.as_slice()) {
                Some(Path::Resource(tag)) => {
                    let wanted = match of_type {
                        Some(name) => tag_names_type(&tag, name),
                        None => true,
                    };
                    if wanted {
                        let ghost tag_view = tag@;
                        resources.push((tag, items[i].1));
                        assert(resources_view(resources@) =~= before.push((tag_view, items[i as int].1@)));
                    }
                },
                _ => {},
            }
            i += 1;
        }
        assert(listing.take(items.len() as int) =~= listing);
        resources
    }

    /// All resources stored under this account, each with its struct tag. A
    /// key that is no path is passed over.
    pub fn get_resources(&self) -> (resources: Vec<(StructTag, &Vec<u8>)>)
        requires
            self.wf(),
        ensures
            resources_view(resources@) == resources_of(self.listing(), None),
    {
        self.select_resources(None)
    }

    /// The resources of one type, whatever their type arguments, each with
    /// its struct tag.
    pub fn get_resources_with_type(&self, name: &TypeName) -> (resources: Vec<(StructTag, &Vec<u8>)>)
        requires
            self.wf(),
        ensures
            resources_view(resources@) == resources_of(self.listing(), Some(name@)),
    {
        self.select_resources(Some(name))
    }

    /// The resources of one kind by currency code.
    fn resources_by_currency(&self, kind: ResourceKind) -> (result: Result<Vec<(Vec<u8>, Vec<u8>)>, NoCurrencyCode>)
        requires
            self.wf(),
        ensures
            match result {
                Ok(balances) => by_currency(resources_of(self.listing(), Some(kind.tag_name()))) == Some(
                    balances_view(balances@),
                ),
                Err(_) => by_currency(resources_of(self.listing(), Some(kind.tag_name()))) is None,
            },
    {
        let name = kind.struct_tag();
        file_by_currency(self.get_resources_with_type(&name))
    }

    /// The balances of the account by currency code.
    pub fn get_balance_resources(&self) -> (result: Result<Vec<(Vec<u8>, Vec<u8>)>, NoCurrencyCode>)
        requires
            self.wf(),
        ensures
            match result {
                Ok(balances) => by_currency(resources_of(self.listing(), Some(ResourceKind::Balance.tag_name())))
                    == Some(balances_view(balances@)),
                Err(_) => by_currency(resources_of(self.listing(), Some(ResourceKind::Balance.tag_name()))) is None,
            },
    {
        self.resources_by_currency(ResourceKind::Balance)
    }

    /// The preburn balances of the account by currency code.
    pub fn get_preburn_balances(&self) -> (result: Result<Vec<(Vec<u8>, Vec<u8>)>, NoCurrencyCode>)
        requires
            self.wf(),
        ensures
            match result {
                Ok(balances) => by_currency(resources_of(self.listing(), Some(ResourceKind::Preburn.tag_name())))
                    == Some(balances_view(balances@)),
                Err(_) => by_currency(resources_of(self.listing(), Some(ResourceKind::Preburn.tag_name()))) is None,
            },
    {
        self.resources_by_currency(ResourceKind::Preburn)
    }

    /// The preburn queues of the account by currency code.
    pub fn get_preburn_queue_balances(&self) -> (result: Result<Vec<(Vec<u8>, Vec<u8>)>, NoCurrencyCode>)
        requires
            self.wf(),
        ensures
            match result {
                Ok(balances) => by_currency(resources_of(self.listing(), Some(ResourceKind::PreburnQueue.tag_name())))
                    == Some(balances_view(balances@)),
                Err(_) => by_currency(resources_of(self.listing(), Some(ResourceKind::PreburnQueue.tag_name())))
                    is None,
            },
    {
        self.resources_by_currency(ResourceKind::PreburnQueue)
    }

    /// The preburn balances of a designated dealer.
    fn dealer_preburns(&self) -> (preburns: Option<DesignatedDealerPreburns>)
        requires
            self.wf(),
        ensures
            match preburns {
                Some(preburns) => preburns_of(self.listing()) == Some(preburns@),
                None => preburns_of(self.listing()) is None,
            },
    {
        match (self.get_preburn_balances(), self.get_preburn_queue_balances()) {
            (Ok(preburns), Ok(queues)) => {
                if preburns.len() == 0 && queues.len() > 0 {
                    Some(DesignatedDealerPreburns::PreburnQueue(queues))
                } else if preburns.len() > 0 && queues.len() == 0 {
                    Some(DesignatedDealerPreburns::Preburn(preburns))
                } else {
                    None
                }
            },
            _ => None,
        }
    }

    /// The role of the account.
    pub fn get_account_role(&self) -> (role: Option<AccountRole>)
        requires
            self.wf(),
        ensures
            role_view(role) == role_of(self@, self.listing()),
    {
        if let Some(vasp) = self.get_resource(ResourceKind::ParentVasp) {
            match self.get_resource(ResourceKind::Credential) {
                Some(credential) => Some(
                    AccountRole::ParentVASP {
                        vasp: copy_bytes(vasp.as_slice()),
                        credential: copy_bytes(credential.as_slice()),
                    },
                ),
                None => None,
            }
        } else if let Some(child) = self.get_resource(ResourceKind::ChildVasp) {
            Some(AccountRole::ChildVASP(copy_bytes(child.as_slice())))
        } else if let Some(dealer) = self.get_resource(ResourceKind::DesignatedDealer) {
            match (self.get_resource(ResourceKind::Credential), self.dealer_preburns()) {
                (Some(credential), Some(preburn_balances)) => Some(
                    AccountRole::DesignatedDealer {
                        dd_credential: copy_bytes(credential.as_slice()),
                        preburn_balances,
                        designated_dealer: copy_bytes(dealer.as_slice()),
                    },
                ),
                _ => None,
            }
        } else {
            Some(AccountRole::Unknown)
        }
    }
}

} // verus!
