use vstd::prelude::*;

use crate::contract::models::Contract;
use crate::contract::sha::ContractSha;
use crate::contract::store::{ContractStore, ContractStoreError, store_error_message};
use crate::runtime::transport::session::SessionId;
use crate::text::{blank, has_prefix, is_blank, push_str, starts_with, str_eq, string_of};

verus! {

pub trait ServiceRegistry {}

pub trait CapabilityRegistry {}

/// What a session asks for when it registers a capability.
#[derive(Debug, PartialEq)]
pub struct CapabilityRegistration {
    pub capability: String,
    pub methods: Vec<MethodRef>,
    pub version: Option<String>,
}

/// One method of a registration: a bare name, a name with the full contract
/// body, or a name with the SHA of a contract stored before.
#[derive(Debug, PartialEq)]
pub enum MethodRef {
    Name(String),
    Declared { name: String, contract: Contract },
    Referenced { name: String, contract_sha: ContractSha },
}

impl MethodRef {
    pub open spec fn name_view(&self) -> Seq<char> {
        match self {
            MethodRef::Name(name) => name@,
            MethodRef::Declared { name, .. } => name@,
            MethodRef::Referenced { name, .. } => name@,
        }
    }

    pub fn name(&self) -> (r: &str)
        ensures
            r@ == self.name_view(),
    {
        match self {
            MethodRef::Name(name) => name.as_str(),
            MethodRef::Declared { name, .. } => name.as_str(),
            MethodRef::Referenced { name, .. } => name.as_str(),
        }
    }
}

/// The method names of a registration, in order.
pub open spec fn registration_names(methods: Seq<MethodRef>) -> Seq<Seq<char>> {
    Seq::new(methods.len(), |i: int| methods[i].name_view())
}

pub open spec fn opt_text(o: Option<String>) -> Option<Seq<char>> {
    match o {
        Some(s) => Some(s@),
        None => None,
    }
}

pub open spec fn opt_sha(o: Option<ContractSha>) -> Option<Seq<char>> {
    match o {
        Some(s) => Some(s@),
        None => None,
    }
}

pub fn copy_text(o: &Option<String>) -> (r: Option<String>)
    ensures
        opt_text(r) == opt_text(*o),
{
    match o {
        Some(s) => Some(s.clone()),
        None => None,
    }
}

pub fn copy_sha(o: &Option<ContractSha>) -> (r: Option<ContractSha>)
    ensures
        opt_sha(r) == opt_sha(*o),
{
    match o {
        Some(s) => Some(s.copy()),
        None => None,
    }
}

/// A method as the registry records it.
#[derive(Debug, PartialEq, Eq)]
pub struct RegisteredMethod {
    pub name: String,
    pub contract_sha: Option<ContractSha>,
    pub summary: Option<String>,
}

pub struct MethodView {
    pub name: Seq<char>,
    pub contract_sha: Option<Seq<char>>,
    pub summary: Option<Seq<char>>,
}

impl View for RegisteredMethod {
    type V = MethodView;

    open spec fn view(&self) -> MethodView {
        MethodView {
            name: self.name@,
            contract_sha: opt_sha(self.contract_sha),
            summary: opt_text(self.summary),
        }
    }
}

impl RegisteredMethod {
    pub fn copy(&self) -> (r: Self)
        ensures
            r@ == self@,
    {
        RegisteredMethod {
            name: self.name.clone(),
            contract_sha: copy_sha(&self.contract_sha),
            summary: copy_text(&self.summary),
        }
    }
}

impl Clone for RegisteredMethod {
    fn clone(&self) -> (r: Self)
        ensures
            r@ == self@,
    {
        self.copy()
    }
}

/// A capability as the registry records it, with the session that owns it.
#[derive(Debug, PartialEq, Eq)]
pub struct RegisteredCapability {
    pub capability: String,
    pub methods: Vec<RegisteredMethod>,
    pub session_id: SessionId,
    pub version: Option<String>,
}

pub struct CapabilityView {
    pub capability: Seq<char>,
    pub methods: Seq<MethodView>,
    pub session_id: u64,
    pub version: Option<Seq<char>>,
}

impl View for RegisteredCapability {
    type V = CapabilityView;

    open spec fn view(&self) -> CapabilityView {
        CapabilityView {
            capability: self.capability@,
            methods: method_views(self.methods@),
            session_id: self.session_id.0,
            version: opt_text(self.version),
        }
    }
}

/// The views of a sequence of methods.
pub open spec fn method_views(ms: Seq<RegisteredMethod>) -> Seq<MethodView> {
    Seq::new(ms.len(), |i: int| ms[i]@)
}

pub fn copy_methods(ms: &Vec<RegisteredMethod>) -> (r: Vec<RegisteredMethod>)
    ensures
        method_views(r@) == method_views(ms@),
{
    let mut r: Vec<RegisteredMethod> = Vec::new();
    let mut i: usize = 0;
    while i < ms.len()
        invariant
            i <= ms.len(),
            r@.len() == i,
            forall|j: int| 0 <= j < i ==> #[trigger] r@[j]@ == ms@[j]@,
        decreases ms.len() - i,
    {
        r.push(ms[i].copy());
        i = i + 1;
    }
    assert(method_views(r@) =~= method_views(ms@));
    r
}

impl RegisteredCapability {
    pub fn copy(&self) -> (r: Self)
        ensures
            r@ == self@,
    {
        RegisteredCapability {
            capability: self.capability.clone(),
            methods: copy_methods(&self.methods),
            session_id: self.session_id,
            version: copy_text(&self.version),
        }
    }
}

impl Clone for RegisteredCapability {
    fn clone(&self) -> (r: Self)
        ensures
            r@ == self@,
    {
        self.copy()
    }
}

/// Which capability and session a method belongs to.
#[derive(Debug, PartialEq, Eq)]
pub struct MethodOwner {
    pub capability: String,
    pub session_id: SessionId,
    pub contract_sha: Option<ContractSha>,
}

pub struct OwnerView {
    pub capability: Seq<char>,
    pub session_id: u64,
    pub contract_sha: Option<Seq<char>>,
}

impl View for MethodOwner {
    type V = OwnerView;

    open spec fn view(&self) -> OwnerView {
        OwnerView {
            capability: self.capability@,
            session_id: self.session_id.0,
            contract_sha: opt_sha(self.contract_sha),
        }
    }
}

impl MethodOwner {
    pub fn copy(&self) -> (r: Self)
        ensures
            r@ == self@,
    {
        MethodOwner {
            capability: self.capability.clone(),
            session_id: self.session_id,
            contract_sha: copy_sha(&self.contract_sha),
        }
    }
}

impl Clone for MethodOwner {
    fn clone(&self) -> (r: Self)
        ensures
            r@ == self@,
    {
        self.copy()
    }
}

pub open spec fn opt_owner(o: Option<MethodOwner>) -> Option<OwnerView> {
    match o {
        Some(x) => Some(x@),
        None => None,
    }
}

/// Why a registration was refused.
#[derive(Debug, PartialEq, Eq)]
pub enum CapabilityRegistryError {
    EmptyCapability,
    EmptyMethods,
    DuplicateMethod(String),
    ReservedMethod(String),
    CapabilityAlreadyRegistered(String),
    MethodAlreadyRegistered(String),
    ContractMismatch(String),
    UnknownContract(String),
    DanglingContractRef(String),
}

pub enum RegistryErrorView {
    EmptyCapability,
    EmptyMethods,
    DuplicateMethod(Seq<char>),
    ReservedMethod(Seq<char>),
    CapabilityAlreadyRegistered(Seq<char>),
    MethodAlreadyRegistered(Seq<char>),
    ContractMismatch(Seq<char>),
    UnknownContract(Seq<char>),
    DanglingContractRef(Seq<char>),
}

impl View for CapabilityRegistryError {
    type V = RegistryErrorView;

    open spec fn view(&self) -> RegistryErrorView {
        match self {
            CapabilityRegistryError::EmptyCapability => RegistryErrorView::EmptyCapability,
            CapabilityRegistryError::EmptyMethods => RegistryErrorView::EmptyMethods,
            CapabilityRegistryError::DuplicateMethod(m) => RegistryErrorView::DuplicateMethod(m@),
            CapabilityRegistryError::ReservedMethod(m) => RegistryErrorView::ReservedMethod(m@),
            CapabilityRegistryError::CapabilityAlreadyRegistered(c) => RegistryErrorView::CapabilityAlreadyRegistered(c@),
            CapabilityRegistryError::MethodAlreadyRegistered(m) => RegistryErrorView::MethodAlreadyRegistered(m@),
            CapabilityRegistryError::ContractMismatch(m) => RegistryErrorView::ContractMismatch(m@),
            CapabilityRegistryError::UnknownContract(m) => RegistryErrorView::UnknownContract(m@),
            CapabilityRegistryError::DanglingContractRef(m) => RegistryErrorView::DanglingContractRef(m@),
        }
    }
}

/// The message of a registry error.
pub open spec fn registry_error_message(e: RegistryErrorView) -> Seq<char> {
    match e {
        RegistryErrorView::EmptyCapability => "capability must not be empty"@,
        RegistryErrorView::EmptyMethods => "methods must not be empty"@,
        RegistryErrorView::DuplicateMethod(m) => "duplicate method: "@ + m,
        RegistryErrorView::ReservedMethod(m) => "reserved method prefix: "@ + m,
        RegistryErrorView::CapabilityAlreadyRegistered(c) => "capability already registered: "@ + c,
        RegistryErrorView::MethodAlreadyRegistered(m) => "method already registered: "@ + m,
        RegistryErrorView::ContractMismatch(m) => m,
        RegistryErrorView::UnknownContract(m) => m,
        RegistryErrorView::DanglingContractRef(m) => m,
    }
}

impl CapabilityRegistryError {
    pub fn message(&self) -> (r: String)
        ensures
            r@ == registry_error_message(self@),
    {
        let (head, tail) = match self {
            CapabilityRegistryError::EmptyCapability => ("capability must not be empty", ""),
            CapabilityRegistryError::EmptyMethods => ("methods must not be empty", ""),
            CapabilityRegistryError::DuplicateMethod(m) => ("duplicate method: ", m.as_str()),
            CapabilityRegistryError::ReservedMethod(m) => ("reserved method prefix: ", m.as_str()),
            CapabilityRegistryError::CapabilityAlreadyRegistered(c) => (
                "capability already registered: ",
                c.as_str(),
            ),
            CapabilityRegistryError::MethodAlreadyRegistered(m) => (
                "method already registered: ",
                m.as_str(),
            ),
            CapabilityRegistryError::ContractMismatch(m) => ("", m.as_str()),
            CapabilityRegistryError::UnknownContract(m) => ("", m.as_str()),
            CapabilityRegistryError::DanglingContractRef(m) => ("", m.as_str()),
        };
        proof {
            reveal_strlit("");
        }
        let mut r = string_of(head);
        push_str(&mut r, tail);
        proof {
            assert(r@ =~= registry_error_message(self@));
        }
        r
    }
}

/// Method names under `runtime.` and `lifecycle.` belong to the runtime.
pub open spec fn is_reserved(name: Seq<char>) -> bool {
    has_prefix(name, "runtime."@) || has_prefix(name, "lifecycle."@)
}

/// The first problem with the method names from index `i` on: a reserved
/// name, or a name given twice (reported at its second occurrence).
pub open spec fn name_problem(names: Seq<Seq<char>>, i: int) -> Option<RegistryErrorView>
    decreases names.len() - i,
{
    if i < 0 || i >= names.len() {
        None
    } else if is_reserved(names[i]) {
        Some(RegistryErrorView::ReservedMethod(names[i]))
    } else if names.subrange(0, i).contains(names[i]) {
        Some(RegistryErrorView::DuplicateMethod(names[i]))
    } else {
        name_problem(names, i + 1)
    }
}

/// Why a registration with this capability name and these method names is
/// refused before any contract is looked at, if it is.
pub open spec fn registration_problem(capability: Seq<char>, names: Seq<Seq<char>>) -> Option<
    RegistryErrorView,
> {
    if is_blank(capability) {
        Some(RegistryErrorView::EmptyCapability)
    } else if names.len() == 0 {
        Some(RegistryErrorView::EmptyMethods)
    } else {
        name_problem(names, 0)
    }
}

/// No name is given twice.
pub open spec fn distinct_names(names: Seq<Seq<char>>) -> bool {
    forall|i: int, j: int| 0 <= i < j < names.len() ==> names[i] != names[j]
}

proof fn lemma_name_problem_kind(names: Seq<Seq<char>>, i: int)
    ensures
        name_problem(names, i) matches Some(p) ==> !is_contract_error(p),
    decreases names.len() - i,
{
    if 0 <= i < names.len() && !is_reserved(names[i]) && !names.subrange(0, i).contains(names[i]) {
        lemma_name_problem_kind(names, i + 1);
    }
}

proof fn lemma_name_problem_none(names: Seq<Seq<char>>, i: int)
    requires
        0 <= i <= names.len(),
        forall|a: int, b: int| 0 <= a < b < i ==> names[a] != names[b],
        forall|a: int| 0 <= a < i ==> !is_reserved(#[trigger] names[a]),
        name_problem(names, i) is None,
    ensures
        distinct_names(names),
        forall|a: int| 0 <= a < names.len() ==> !is_reserved(#[trigger] names[a]),
    decreases names.len() - i,
{
    if i < names.len() {
        assert(!names.subrange(0, i).contains(names[i]));
        assert forall|a: int, b: int| 0 <= a < b < i + 1 implies names[a] != names[b] by {
            if b == i {
                assert(names.subrange(0, i)[a] == names[a]);
            }
        }
        lemma_name_problem_none(names, i + 1);
        assert(!is_reserved(names[i]));
    }
}

/// Checks the capability name and method names of a registration.
#[verifier::loop_isolation(false)]
pub fn validate_registration(registration: &CapabilityRegistration) -> (r: Result<(), CapabilityRegistryError>)
    ensures
        match registration_problem(registration.capability@, registration_names(registration.methods@)) {
            Some(p) => r matches Err(e) && e@ == p,
            None => r is Ok,
        },
{
    let ghost names = registration_names(registration.methods@);
    if blank(registration.capability.as_str()) {
        return Err(CapabilityRegistryError::EmptyCapability);
    }
    if registration.methods.len() == 0 {
        return Err(CapabilityRegistryError::EmptyMethods);
    }
    let runtime_prefix = "runtime.";
    let lifecycle_prefix = "lifecycle.";
    let mut i: usize = 0;
    while i < registration.methods.len()
        invariant
            i <= registration.methods.len(),
            names == registration_names(registration.methods@),
            names.len() == registration.methods@.len(),
            runtime_prefix@ == "runtime."@,
            lifecycle_prefix@ == "lifecycle."@,
            name_problem(names, 0) == name_problem(names, i as int),
            !is_blank(registration.capability@),
            registration.methods@.len() > 0,
        decreases registration.methods.len() - i,
    {
        let name = registration.methods[i].name();
        if starts_with(name, runtime_prefix) || starts_with(name, lifecycle_prefix) {
            return Err(CapabilityRegistryError::ReservedMethod(string_of(name)));
        }
        let mut j: usize = 0;
        while j < i
            invariant
                j <= i < names.len(),
                names == registration_names(registration.methods@),
                name@ == names[i as int],
                forall|a: int| 0 <= a < j ==> names[a] != names[i as int],
            decreases i - j,
        {
            if str_eq(registration.methods[j].name(), name) {
                assert(names.subrange(0, i as int)[j as int] == names[i as int]);
                return Err(CapabilityRegistryError::DuplicateMethod(string_of(name)));
            }
            j = j + 1;
        }
        assert(!names.subrange(0, i as int).contains(names[i as int]));
        i = i + 1;
    }
    Ok(())
}

/// The registry error a store failure becomes.
pub open spec fn store_failure(e: ContractStoreError) -> RegistryErrorView {
    match e {
        ContractStoreError::Mismatch { .. } => RegistryErrorView::ContractMismatch(store_error_message(e)),
        ContractStoreError::Unknown { .. } => RegistryErrorView::UnknownContract(store_error_message(e)),
        ContractStoreError::DanglingRef { .. } => RegistryErrorView::DanglingContractRef(store_error_message(e)),
        _ => RegistryErrorView::ContractMismatch(store_error_message(e)),
    }
}

pub fn registry_error_from_contract_store(error: ContractStoreError) -> (r: CapabilityRegistryError)
    ensures
        r@ == store_failure(error),
{
    let message = error.message();
    match error {
        ContractStoreError::Mismatch { .. } => CapabilityRegistryError::ContractMismatch(message),
        ContractStoreError::Unknown { .. } => CapabilityRegistryError::UnknownContract(message),
        ContractStoreError::DanglingRef { .. } => CapabilityRegistryError::DanglingContractRef(message),
        _ => CapabilityRegistryError::ContractMismatch(message),
    }
}

/// The errors that come from looking a contract up or storing it.
pub open spec fn is_contract_error(e: RegistryErrorView) -> bool {
    e is ContractMismatch || e is UnknownContract || e is DanglingContractRef
}

/// What resolving a method ref gives when it succeeds: the same name, no
/// contract for a bare name, and the given SHA for a reference.
pub open spec fn resolved_as(m: MethodRef, r: MethodView) -> bool {
    &&& r.name == m.name_view()
    &&& match m {
        MethodRef::Name(_) => r.contract_sha is None && r.summary is None,
        MethodRef::Declared { contract, .. } => r.contract_sha is Some && r.summary == opt_text(
            contract.summary,
        ),
        MethodRef::Referenced { contract_sha, .. } => r.contract_sha == Some(contract_sha@),
    }
}

/// A resolved method, by its view.
pub open spec fn method_result(r: Result<RegisteredMethod, CapabilityRegistryError>) -> Result<
    MethodView,
    RegistryErrorView,
> {
    match r {
        Ok(m) => Ok(m@),
        Err(e) => Err(e@),
    }
}

/// A method declared with its full contract, given what storing the
/// contract gave: the stored SHA and the contract's summary, or the store's
/// failure.
pub open spec fn declared_method(
    name: Seq<char>,
    summary: Option<Seq<char>>,
    inserted: Result<ContractSha, ContractStoreError>,
) -> Result<MethodView, RegistryErrorView> {
    match inserted {
        Ok(sha) => Ok(MethodView { name, contract_sha: Some(sha@), summary }),
        Err(e) => Err(store_failure(e)),
    }
}

/// A method declared by the SHA of a stored contract, given what reading it
/// from the store gave: the SHA and the stored contract's summary; an
/// unknown-contract error when nothing is stored under it; or the store's
/// failure.
pub open spec fn referenced_method(
    name: Seq<char>,
    sha: Seq<char>,
    found: Result<Option<Contract>, ContractStoreError>,
) -> Result<MethodView, RegistryErrorView> {
    match found {
        Ok(Some(c)) => Ok(MethodView { name, contract_sha: Some(sha), summary: opt_text(c.summary) }),
        Ok(None) => Err(
            RegistryErrorView::UnknownContract(
                "unknown contract sha: "@ + sha + "; re-register with the full body"@,
            ),
        ),
        Err(e) => Err(store_failure(e)),
    }
}

/// The method a full contract declares, once the store has answered.
pub fn resolve_declared(name: &String, contract: &Contract, inserted: Result<ContractSha, ContractStoreError>) -> (r:
    Result<RegisteredMethod, CapabilityRegistryError>)
    ensures
        method_result(r) == declared_method(name@, opt_text(contract.summary), inserted),
{
    match inserted {
        Ok(contract_sha) => Ok(
            RegisteredMethod { name: name.clone(), contract_sha: Some(contract_sha), summary: copy_text(&contract.summary) },
        ),
        Err(error) => Err(registry_error_from_contract_store(error)),
    }
}

/// The method a contract SHA declares, once the store has answered.
pub fn resolve_referenced(
    name: &String,
    contract_sha: &ContractSha,
    found: Result<Option<Contract>, ContractStoreError>,
) -> (r: Result<RegisteredMethod, CapabilityRegistryError>)
    ensures
        method_result(r) == referenced_method(name@, contract_sha@, found),
{
    match found {
        Ok(Some(contract)) => Ok(
            RegisteredMethod { name: name.clone(), contract_sha: Some(contract_sha.copy()), summary: contract.summary },
        ),
        Ok(None) => {
            let mut message = string_of("unknown contract sha: ");
            push_str(&mut message, contract_sha.as_str());
            push_str(&mut message, "; re-register with the full body");
            Err(CapabilityRegistryError::UnknownContract(message))
        },
        Err(error) => Err(registry_error_from_contract_store(error)),
    }
}

/// Resolves a method ref against the contract store: a full contract body is
/// stored and its SHA recorded; a SHA must name a stored contract.
pub fn resolve_method_ref<S: ContractStore>(method: &MethodRef, contract_store: &S) -> (r: Result<
    RegisteredMethod,
    CapabilityRegistryError,
>)
    ensures
        match r {
            Ok(m) => resolved_as(*method, m@),
            Err(e) => !(method is Name) && is_contract_error(e@),
        },
        match method {
            MethodRef::Name(n) => method_result(r) == Ok::<MethodView, RegistryErrorView>(
                MethodView { name: n@, contract_sha: None, summary: None },
            ),
            MethodRef::Declared { name, contract } => exists|inserted: Result<ContractSha, ContractStoreError>|
                #[trigger] contract_store.answers_insert(*contract, inserted) && method_result(r) == declared_method(
                    name@,
                    opt_text(contract.summary),
                    inserted,
                ),
            MethodRef::Referenced { name, contract_sha } => exists|found: Result<Option<Contract>, ContractStoreError>|
                #[trigger] contract_store.answers_get(contract_sha@, found) && method_result(r) == referenced_method(
                    name@,
                    contract_sha@,
                    found,
                ),
        },
{
    match method {
        MethodRef::Name(name) => Ok(RegisteredMethod { name: name.clone(), contract_sha: None, summary: None }),
        MethodRef::Declared { name, contract } => {
            let inserted = contract_store.insert(contract);
            let ghost i = inserted;
            let r = resolve_declared(name, contract, inserted);
            assert(contract_store.answers_insert(*contract, i) && method_result(r) == declared_method(
                name@,
                opt_text(contract.summary),
                i,
            ));
            r
        },
        MethodRef::Referenced { name, contract_sha } => {
            let found = contract_store.get(contract_sha);
            let ghost f = found;
            let r = resolve_referenced(name, contract_sha, found);
            assert(contract_store.answers_get(contract_sha@, f) && method_result(r) == referenced_method(
                name@,
                contract_sha@,
                f,
            ));
            r
        },
    }
}

/// The method of a capability under `q` (the last one, if named twice).
pub open spec fn find_method(ms: Seq<MethodView>, q: Seq<char>) -> Option<MethodView>
    decreases ms.len(),
{
    if ms.len() == 0 {
        None
    } else if ms.last().name == q {
        Some(ms.last())
    } else {
        find_method(ms.drop_last(), q)
    }
}

/// Who owns the method `q` among the registered capabilities.
pub open spec fn owner_in(caps: Seq<CapabilityView>, q: Seq<char>) -> Option<OwnerView>
    decreases caps.len(),
{
    if caps.len() == 0 {
        None
    } else {
        match find_method(caps.last().methods, q) {
            Some(m) => Some(
                OwnerView {
                    capability: caps.last().capability,
                    session_id: caps.last().session_id,
                    contract_sha: m.contract_sha,
                },
            ),
            None => owner_in(caps.drop_last(), q),
        }
    }
}

/// The registered capability with the given name.
pub open spec fn cap_named(caps: Seq<CapabilityView>, name: Seq<char>) -> Option<CapabilityView>
    decreases caps.len(),
{
    if caps.len() == 0 {
        None
    } else if caps.last().capability == name {
        Some(caps.last())
    } else {
        cap_named(caps.drop_last(), name)
    }
}

/// No method name occurs twice in one capability.
pub open spec fn methods_wf(ms: Seq<MethodView>) -> bool {
    forall|i: int, j: int| 0 <= i < j < ms.len() ==> ms[i].name != ms[j].name
}

/// The registry's invariant: capability names are unique, and no method name
/// belongs to two capabilities or occurs twice in one.
pub open spec fn registry_wf(caps: Seq<CapabilityView>) -> bool
    decreases caps.len(),
{
    caps.len() == 0 || {
        let d = caps.drop_last();
        let c = caps.last();
        &&& registry_wf(d)
        &&& methods_wf(c.methods)
        &&& cap_named(d, c.capability) is None
        &&& forall|m: int| 0 <= m < c.methods.len() ==> owner_in(d, #[trigger] c.methods[m].name) is None
    }
}

/// The capabilities owned by session `s`, in registration order.
pub open spec fn caps_of_session(caps: Seq<CapabilityView>, s: u64) -> Seq<CapabilityView>
    decreases caps.len(),
{
    if caps.len() == 0 {
        Seq::empty()
    } else if caps.last().session_id == s {
        caps_of_session(caps.drop_last(), s).push(caps.last())
    } else {
        caps_of_session(caps.drop_last(), s)
    }
}

/// The capabilities owned by other sessions than `s`, in registration order.
pub open spec fn caps_not_of_session(caps: Seq<CapabilityView>, s: u64) -> Seq<CapabilityView>
    decreases caps.len(),
{
    if caps.len() == 0 {
        Seq::empty()
    } else if caps.last().session_id == s {
        caps_not_of_session(caps.drop_last(), s)
    } else {
        caps_not_of_session(caps.drop_last(), s).push(caps.last())
    }
}

/// The capabilities with another name than `name`.
pub open spec fn caps_without(caps: Seq<CapabilityView>, name: Seq<char>) -> Seq<CapabilityView>
    decreases caps.len(),
{
    if caps.len() == 0 {
        Seq::empty()
    } else if caps.last().capability == name {
        caps_without(caps.drop_last(), name)
    } else {
        caps_without(caps.drop_last(), name).push(caps.last())
    }
}

proof fn lemma_find_method(ms: Seq<MethodView>, q: Seq<char>)
    ensures
        find_method(ms, q) is None <==> forall|i: int| 0 <= i < ms.len() ==> ms[i].name != q,
        find_method(ms, q) matches Some(m) ==> m.name == q && exists|i: int| 0 <= i < ms.len() && ms[i] == m,
    decreases ms.len(),
{
    if ms.len() > 0 {
        lemma_find_method(ms.drop_last(), q);
        if ms.last().name == q {
            assert(ms[ms.len() - 1] == ms.last());
        } else if find_method(ms.drop_last(), q) is Some {
            let m = find_method(ms.drop_last(), q)->0;
            let i = choose|i: int| 0 <= i < ms.drop_last().len() && ms.drop_last()[i] == m;
            assert(ms[i] == m);
        }
        if find_method(ms, q) is None {
            assert forall|i: int| 0 <= i < ms.len() implies ms[i].name != q by {
                if i < ms.len() - 1 {
                    assert(ms.drop_last()[i] == ms[i]);
                }
            }
        } else if ms.last().name != q {
            let i = choose|i: int| 0 <= i < ms.drop_last().len() && ms.drop_last()[i].name == q;
            assert(ms[i] == ms.drop_last()[i]);
        }
    }
}

proof fn lemma_push_views(caps: Seq<CapabilityView>, c: CapabilityView)
    ensures
        caps.push(c).drop_last() == caps,
        caps.push(c).last() == c,
{
    assert(caps.push(c).drop_last() =~= caps);
}

/// Dropping the capabilities of a session keeps the invariant; the methods of
/// those capabilities lose their owner and every other method keeps its owner.
pub proof fn lemma_caps_not_of_session(caps: Seq<CapabilityView>, s: u64)
    requires
        registry_wf(caps),
    ensures
        registry_wf(caps_not_of_session(caps, s)),
        forall|q: Seq<char>| #[trigger] owner_in(caps_not_of_session(caps, s), q) == match owner_in(caps, q) {
            Some(o) => if o.session_id == s {
                None
            } else {
                Some(o)
            },
            None => None,
        },
        forall|n: Seq<char>| #[trigger] cap_named(caps_not_of_session(caps, s), n) == match cap_named(caps, n) {
            Some(c) => if c.session_id == s {
                None
            } else {
                Some(c)
            },
            None => None,
        },
    decreases caps.len(),
{
    if caps.len() > 0 {
        let d = caps.drop_last();
        let c = caps.last();
        let rd = caps_not_of_session(d, s);
        lemma_caps_not_of_session(d, s);
        assert forall|q: Seq<char>| #[trigger] find_method(c.methods, q) is Some implies owner_in(d, q) is None by {
            lemma_find_method(c.methods, q);
            let i = choose|i: int| 0 <= i < c.methods.len() && c.methods[i].name == q;
            assert(owner_in(d, c.methods[i].name) is None);
        }
        if c.session_id == s {
            assert forall|n: Seq<char>| #[trigger] cap_named(caps_not_of_session(caps, s), n) == match cap_named(caps, n) {
                Some(x) => if x.session_id == s {
                    None
                } else {
                    Some(x)
                },
                None => None,
            } by {
                if n == c.capability {
                    assert(cap_named(d, c.capability) is None);
                }
            }
        } else {
            let r = rd.push(c);
            lemma_push_views(rd, c);
            assert forall|m: int| 0 <= m < c.methods.len() implies owner_in(rd, #[trigger] c.methods[m].name) is None by {
                assert(owner_in(d, c.methods[m].name) is None);
            }
            assert forall|n: Seq<char>| #[trigger] cap_named(caps_not_of_session(caps, s), n) == match cap_named(caps, n) {
                Some(x) => if x.session_id == s {
                    None
                } else {
                    Some(x)
                },
                None => None,
            } by {
                assert(cap_named(r, n) == if c.capability == n { Some(c) } else { cap_named(rd, n) });
            }
            assert forall|q: Seq<char>| #[trigger] owner_in(caps_not_of_session(caps, s), q) == match owner_in(caps, q) {
                Some(o) => if o.session_id == s {
                    None
                } else {
                    Some(o)
                },
                None => None,
            } by {
                assert(owner_in(r, q) == match find_method(c.methods, q) {
                    Some(m) => Some(OwnerView { capability: c.capability, session_id: c.session_id, contract_sha: m.contract_sha }),
                    None => owner_in(rd, q),
                });
            }
        }
    }
}

/// Dropping the capability called `name` keeps the invariant; its methods lose
/// their owner and every other method keeps its owner.
pub proof fn lemma_caps_without(caps: Seq<CapabilityView>, name: Seq<char>)
    requires
        registry_wf(caps),
    ensures
        registry_wf(caps_without(caps, name)),
        forall|q: Seq<char>| #[trigger] owner_in(caps_without(caps, name), q) == match owner_in(caps, q) {
            Some(o) => if o.capability == name {
                None
            } else {
                Some(o)
            },
            None => None,
        },
        forall|n: Seq<char>| #[trigger] cap_named(caps_without(caps, name), n) == if n == name {
            None
        } else {
            cap_named(caps, n)
        },
    decreases caps.len(),
{
    if caps.len() > 0 {
        let d = caps.drop_last();
        let c = caps.last();
        let rd = caps_without(d, name);
        lemma_caps_without(d, name);
        assert forall|q: Seq<char>| #[trigger] find_method(c.methods, q) is Some implies owner_in(d, q) is None by {
            lemma_find_method(c.methods, q);
            let i = choose|i: int| 0 <= i < c.methods.len() && c.methods[i].name == q;
            assert(owner_in(d, c.methods[i].name) is None);
        }
        if c.capability == name {
            assert forall|n: Seq<char>| #[trigger] cap_named(caps_without(caps, name), n) == if n == name {
                None
            } else {
                cap_named(caps, n)
            } by {
                if n == name {
                    assert(cap_named(d, name) is None);
                }
            }
        } else {
            let r = rd.push(c);
            lemma_push_views(rd, c);
            assert forall|m: int| 0 <= m < c.methods.len() implies owner_in(rd, #[trigger] c.methods[m].name) is None by {
                assert(owner_in(d, c.methods[m].name) is None);
            }
            assert forall|n: Seq<char>| #[trigger] cap_named(caps_without(caps, name), n) == if n == name {
                None
            } else {
                cap_named(caps, n)
            } by {
                assert(cap_named(r, n) == if c.capability == n { Some(c) } else { cap_named(rd, n) });
            }
            assert forall|q: Seq<char>| #[trigger] owner_in(caps_without(caps, name), q) == match owner_in(caps, q) {
                Some(o) => if o.capability == name {
                    None
                } else {
                    Some(o)
                },
                None => None,
            } by {
                assert(owner_in(r, q) == match find_method(c.methods, q) {
                    Some(m) => Some(OwnerView { capability: c.capability, session_id: c.session_id, contract_sha: m.contract_sha }),
                    None => owner_in(rd, q),
                });
            }
        }
    }
}

/// After a capability is added, each of its methods is owned by it and every
/// other method keeps its owner.
pub proof fn lemma_registered_owner(caps: Seq<CapabilityView>, c: CapabilityView)
    requires
        registry_wf(caps.push(c)),
    ensures
        forall|m: int| 0 <= m < c.methods.len() ==> #[trigger] owner_in(caps.push(c), c.methods[m].name) == Some(
            OwnerView {
                capability: c.capability,
                session_id: c.session_id,
                contract_sha: c.methods[m].contract_sha,
            },
        ),
        forall|q: Seq<char>| (forall|m: int| 0 <= m < c.methods.len() ==> c.methods[m].name != q) ==> #[trigger] owner_in(caps.push(c), q) == owner_in(caps, q),
        cap_named(caps.push(c), c.capability) == Some(c),
{
    lemma_push_views(caps, c);
    assert forall|m: int| 0 <= m < c.methods.len() implies #[trigger] owner_in(caps.push(c), c.methods[m].name) == Some(
        OwnerView {
            capability: c.capability,
            session_id: c.session_id,
            contract_sha: c.methods[m].contract_sha,
        },
    ) by {
        let q = c.methods[m].name;
        lemma_find_method(c.methods, q);
        let f = find_method(c.methods, q)->0;
        let i = choose|i: int| 0 <= i < c.methods.len() && c.methods[i] == f;
        if i != m {
            assert(methods_wf(c.methods));
            if i < m {
                assert(c.methods[i].name != c.methods[m].name);
            } else {
                assert(c.methods[m].name != c.methods[i].name);
            }
        }
    }
    assert forall|q: Seq<char>| (forall|m: int| 0 <= m < c.methods.len() ==> c.methods[m].name != q) implies #[trigger] owner_in(caps.push(c), q) == owner_in(caps, q) by {
        lemma_find_method(c.methods, q);
    }
}

proof fn lemma_cap_named(caps: Seq<CapabilityView>, n: Seq<char>)
    ensures
        cap_named(caps, n) is None <==> forall|i: int| 0 <= i < caps.len() ==> caps[i].capability != n,
    decreases caps.len(),
{
    if caps.len() > 0 {
        lemma_cap_named(caps.drop_last(), n);
        if cap_named(caps, n) is None {
            assert forall|i: int| 0 <= i < caps.len() implies caps[i].capability != n by {
                if i < caps.len() - 1 {
                    assert(caps[i] == caps.drop_last()[i]);
                }
            }
        } else if caps.last().capability != n {
            let i = choose|i: int| 0 <= i < caps.drop_last().len() && !(caps.drop_last()[i].capability != n);
            assert(caps[i] == caps.drop_last()[i]);
        }
    }
}

/// What the registry lists agrees with who owns each method: the listed
/// capabilities have distinct names; every method listed under a capability
/// is owned by it, with the contract it is listed with; no method name is
/// listed twice; and every method that has an owner is listed.
pub proof fn lemma_list_matches_owners(caps: Seq<CapabilityView>)
    requires
        registry_wf(caps),
    ensures
        forall|i: int, j: int|
            0 <= i < j < caps.len() ==> #[trigger] caps[i].capability != #[trigger] caps[j].capability,
        forall|i: int, m: int|
            0 <= i < caps.len() && 0 <= m < caps[i].methods.len() ==> #[trigger] owner_in(
                caps,
                caps[i].methods[m].name,
            ) == Some(
                OwnerView {
                    capability: caps[i].capability,
                    session_id: caps[i].session_id,
                    contract_sha: caps[i].methods[m].contract_sha,
                },
            ),
        forall|i: int, m: int, j: int, n: int|
            #![trigger caps[i].methods[m], caps[j].methods[n]]
            0 <= i < caps.len() && 0 <= j < caps.len() && 0 <= m < caps[i].methods.len() && 0 <= n
                < caps[j].methods.len() && caps[i].methods[m].name == caps[j].methods[n].name ==> i == j && m
                == n,
        forall|q: Seq<char>|
            #[trigger] owner_in(caps, q) is Some ==> exists|i: int, m: int|
                0 <= i < caps.len() && 0 <= m < caps[i].methods.len() && #[trigger] caps[i].methods[m].name == q,
    decreases caps.len(),
{
    if caps.len() > 0 {
        let d = caps.drop_last();
        let c = caps.last();
        let k = caps.len() - 1;
        lemma_list_matches_owners(d);
        lemma_push_views(d, c);
        assert(caps =~= d.push(c));
        assert(caps[k] == c);
        assert forall|i: int| 0 <= i < k implies #[trigger] caps[i] == d[i] by {}
        lemma_cap_named(d, c.capability);
        lemma_registered_owner(d, c);
        assert forall|i: int, j: int| 0 <= i < j < caps.len() implies #[trigger] caps[i].capability
            != #[trigger] caps[j].capability by {
            assert(caps[i] == d[i]);
            if j < k {
                assert(caps[j] == d[j]);
            }
        }
        assert forall|i: int, m: int| 0 <= i < caps.len() && 0 <= m < caps[i].methods.len() implies #[trigger] owner_in(
            caps,
            caps[i].methods[m].name,
        ) == Some(
            OwnerView {
                capability: caps[i].capability,
                session_id: caps[i].session_id,
                contract_sha: caps[i].methods[m].contract_sha,
            },
        ) by {
            if i < k {
                let q = d[i].methods[m].name;
                assert(owner_in(d, q) is Some);
                assert forall|n: int| 0 <= n < c.methods.len() implies c.methods[n].name != q by {
                    assert(owner_in(d, c.methods[n].name) is None);
                }
            }
        }
        assert forall|i: int, m: int, j: int, n: int|
            0 <= i < caps.len() && 0 <= j < caps.len() && 0 <= m < caps[i].methods.len() && 0 <= n
                < caps[j].methods.len() && #[trigger] caps[i].methods[m].name == #[trigger] caps[j].methods[n].name implies i
                == j && m == n by {
            if i == k && j == k {
                assert(methods_wf(c.methods));
                if m < n {
                    assert(c.methods[m].name != c.methods[n].name);
                } else if n < m {
                    assert(c.methods[n].name != c.methods[m].name);
                }
            } else if i == k {
                assert(caps[j] == d[j]);
                assert(owner_in(d, d[j].methods[n].name) is Some);
                assert(owner_in(d, c.methods[m].name) is None);
            } else if j == k {
                assert(caps[i] == d[i]);
                assert(owner_in(d, d[i].methods[m].name) is Some);
                assert(owner_in(d, c.methods[n].name) is None);
            } else {
                assert(caps[i] == d[i]);
                assert(caps[j] == d[j]);
                assert(d[i].methods[m] == caps[i].methods[m]);
                assert(d[j].methods[n] == caps[j].methods[n]);
            }
        }
        assert forall|q: Seq<char>| #[trigger] owner_in(caps, q) is Some implies exists|i: int, m: int|
            0 <= i < caps.len() && 0 <= m < caps[i].methods.len() && #[trigger] caps[i].methods[m].name == q by {
            lemma_find_method(c.methods, q);
            if find_method(c.methods, q) is Some {
                let f = find_method(c.methods, q)->0;
                let m = choose|m: int| 0 <= m < c.methods.len() && c.methods[m] == f;
                assert(caps[k].methods[m].name == q);
            } else {
                assert(owner_in(d, q) is Some);
                let (i, m) = choose|i: int, m: int|
                    0 <= i < d.len() && 0 <= m < d[i].methods.len() && #[trigger] d[i].methods[m].name == q;
                assert(caps[i] == d[i]);
                assert(caps[i].methods[m].name == q);
            }
        }
    }
}

/// The owner of a method is a registered capability, owned by the same
/// session.
pub proof fn lemma_owner_cap(caps: Seq<CapabilityView>, q: Seq<char>)
    requires
        registry_wf(caps),
        owner_in(caps, q) is Some,
    ensures
        cap_named(caps, owner_in(caps, q)->0.capability) matches Some(c) && c.session_id == owner_in(
            caps,
            q,
        )->0.session_id,
    decreases caps.len(),
{
    let d = caps.drop_last();
    let c = caps.last();
    if find_method(c.methods, q) is None {
        lemma_owner_cap(d, q);
        let o = owner_in(d, q)->0;
        if c.capability == o.capability {
            assert(cap_named(d, c.capability) is None);
        }
    }
}

/// How many capabilities remain when a session's are removed, or one by name.
pub proof fn lemma_removed_counts(caps: Seq<CapabilityView>, s: u64, name: Seq<char>)
    requires
        registry_wf(caps),
    ensures
        caps_not_of_session(caps, s).len() + caps_of_session(caps, s).len() == caps.len(),
        caps_without(caps, name).len() + (if cap_named(caps, name) is Some { 1int } else { 0int }) == caps.len(),
    decreases caps.len(),
{
    if caps.len() > 0 {
        lemma_removed_counts(caps.drop_last(), s, name);
        if caps.last().capability == name {
            assert(cap_named(caps.drop_last(), name) is None);
        }
    }
}

/// The views of a sequence of registered capabilities.
pub open spec fn cap_views(cs: Seq<RegisteredCapability>) -> Seq<CapabilityView> {
    Seq::new(cs.len(), |i: int| cs[i]@)
}

proof fn lemma_cap_views_prefix(cs: Seq<RegisteredCapability>, i: int)
    requires
        0 < i <= cs.len(),
    ensures
        cap_views(cs).subrange(0, i).drop_last() == cap_views(cs).subrange(0, i - 1),
        cap_views(cs).subrange(0, i).last() == cs[i - 1]@,
{
    assert(cap_views(cs).subrange(0, i).drop_last() =~= cap_views(cs).subrange(0, i - 1));
}

/// The capabilities registered by connected sessions and the methods they
/// serve.
#[derive(Debug)]
pub struct RuntimeCapabilityRegistry {
    capabilities: Vec<RegisteredCapability>,
}

impl View for RuntimeCapabilityRegistry {
    type V = Seq<CapabilityView>;

    /// The registered capabilities, in registration order.
    closed spec fn view(&self) -> Seq<CapabilityView> {
        cap_views(self.capabilities@)
    }
}

/// The method `q` in `ms`, looked up from the end as `find_method` does.
fn method_named(ms: &Vec<RegisteredMethod>, q: &str) -> (r: Option<usize>)
    ensures
        match r {
            Some(i) => i < ms.len() && find_method(method_views(ms@), q@) == Some(ms@[i as int]@),
            None => find_method(method_views(ms@), q@) is None,
        },
{
    let ghost mv = method_views(ms@);
    let mut i: usize = ms.len();
    assert(mv.subrange(0, mv.len() as int) =~= mv);
    while i > 0
        invariant
            i <= ms.len(),
            mv == method_views(ms@),
            find_method(mv, q@) == find_method(mv.subrange(0, i as int), q@),
        decreases i,
    {
        let ghost pre = mv.subrange(0, i as int);
        assert(pre.drop_last() =~= mv.subrange(0, i - 1));
        assert(pre.last() == ms@[i - 1]@);
        if str_eq(ms[i - 1].name.as_str(), q) {
            return Some(i - 1);
        }
        i = i - 1;
    }
    assert(mv.subrange(0, 0) =~= Seq::<MethodView>::empty());
    None
}

impl RuntimeCapabilityRegistry {
    /// The registry's invariant holds.
    pub open spec fn wf(&self) -> bool {
        registry_wf(self@)
    }

    /// An empty registry.
    pub fn new() -> (r: Self)
        ensures
            r@ == Seq::<CapabilityView>::empty(),
            r.wf(),
    {
        let r = RuntimeCapabilityRegistry { capabilities: Vec::new() };
        assert(r@ =~= Seq::<CapabilityView>::empty());
        r
    }

    /// Who serves `method`, if any registered capability does.
    pub fn owner(&self, method: &str) -> (r: Option<MethodOwner>)
        ensures
            opt_owner(r) == owner_in(self@, method@),
    {
        let ghost v = self@;
        let mut i: usize = self.capabilities.len();
        assert(v.subrange(0, v.len() as int) =~= v);
        while i > 0
            invariant
                i <= self.capabilities.len(),
                v == self@,
                v == cap_views(self.capabilities@),
                owner_in(v, method@) == owner_in(v.subrange(0, i as int), method@),
            decreases i,
        {
            proof {
                lemma_cap_views_prefix(self.capabilities@, i as int);
            }
            let cap = &self.capabilities[i - 1];
            match method_named(&cap.methods, method) {
                Some(m) => {
                    return Some(
                        MethodOwner {
                            capability: cap.capability.clone(),
                            session_id: cap.session_id,
                            contract_sha: copy_sha(&cap.methods[m].contract_sha),
                        },
                    );
                },
                None => {},
            }
            i = i - 1;
        }
        assert(v.subrange(0, 0) =~= Seq::<CapabilityView>::empty());
        None
    }

    /// The position of the capability called `name`.
    fn position(&self, name: &str) -> (r: Option<usize>)
        ensures
            match r {
                Some(i) => i < self@.len() && cap_named(self@, name@) == Some(self@[i as int]),
                None => cap_named(self@, name@) is None,
            },
    {
        let ghost v = self@;
        let mut i: usize = self.capabilities.len();
        assert(v.subrange(0, v.len() as int) =~= v);
        while i > 0
            invariant
                i <= self.capabilities.len(),
                v == self@,
                v == cap_views(self.capabilities@),
                cap_named(v, name@) == cap_named(v.subrange(0, i as int), name@),
            decreases i,
        {
            proof {
                lemma_cap_views_prefix(self.capabilities@, i as int);
            }
            if str_eq(self.capabilities[i - 1].capability.as_str(), name) {
                return Some(i - 1);
            }
            i = i - 1;
        }
        assert(v.subrange(0, 0) =~= Seq::<CapabilityView>::empty());
        None
    }

    /// All registered capabilities, in registration order.
    pub fn list(&self) -> (r: Vec<RegisteredCapability>)
        ensures
            cap_views(r@) == self@,
    {
        let mut r: Vec<RegisteredCapability> = Vec::new();
        let mut i: usize = 0;
        while i < self.capabilities.len()
            invariant
                i <= self.capabilities.len(),
                r@.len() == i,
                forall|j: int| 0 <= j < i ==> #[trigger] r@[j]@ == self.capabilities@[j]@,
            decreases self.capabilities.len() - i,
        {
            r.push(self.capabilities[i].copy());
            i = i + 1;
        }
        assert(cap_views(r@) =~= self@);
        r
    }

    /// How many capabilities are registered.
    pub fn capability_count(&self) -> (r: usize)
        ensures
            r == self@.len(),
    {
        self.capabilities.len()
    }

    /// Removes every capability of `session_id` and returns them, in
    /// registration order.
    pub fn unregister_session(&mut self, session_id: SessionId) -> (r: Vec<RegisteredCapability>)
        requires
            old(self).wf(),
        ensures
            final(self).wf(),
            final(self)@ == caps_not_of_session(old(self)@, session_id.0),
            cap_views(r@) == caps_of_session(old(self)@, session_id.0),
            final(self)@.len() + r@.len() == old(self)@.len(),
            forall|q: Seq<char>| #[trigger] owner_in(final(self)@, q) == match owner_in(old(self)@, q) {
                Some(o) => if o.session_id == session_id.0 {
                    None
                } else {
                    Some(o)
                },
                None => None,
            },
    {
        let ghost v = self@;
        let mut kept: Vec<RegisteredCapability> = Vec::new();
        let mut removed: Vec<RegisteredCapability> = Vec::new();
        let mut i: usize = 0;
        assert(v.subrange(0, 0) =~= Seq::<CapabilityView>::empty());
        while i < self.capabilities.len()
            invariant
                i <= self.capabilities.len(),
                v == cap_views(self.capabilities@),
                cap_views(kept@) == caps_not_of_session(v.subrange(0, i as int), session_id.0),
                cap_views(removed@) == caps_of_session(v.subrange(0, i as int), session_id.0),
            decreases self.capabilities.len() - i,
        {
            proof {
                lemma_cap_views_prefix(self.capabilities@, i + 1);
            }
            let c = self.capabilities[i].copy();
            if c.session_id.0 == session_id.0 {
                let ghost before = removed@;
                removed.push(c);
                assert(cap_views(removed@) =~= cap_views(before).push(self.capabilities@[i as int]@));
            } else {
                let ghost before = kept@;
                kept.push(c);
                assert(cap_views(kept@) =~= cap_views(before).push(self.capabilities@[i as int]@));
            }
            i = i + 1;
        }
        assert(v.subrange(0, v.len() as int) =~= v);
        proof {
            lemma_caps_not_of_session(v, session_id.0);
            lemma_removed_counts(v, session_id.0, Seq::empty());
        }
        self.capabilities = kept;
        removed
    }

    /// Removes the capability called `capability` when `session_id` owns it,
    /// and returns it.
    pub fn unregister_capability(&mut self, session_id: SessionId, capability: &str) -> (r: Option<
        RegisteredCapability,
    >)
        requires
            old(self).wf(),
        ensures
            final(self).wf(),
            match cap_named(old(self)@, capability@) {
                Some(c) => if c.session_id == session_id.0 {
                    r matches Some(x) && x@ == c && final(self)@ == caps_without(old(self)@, capability@)
                } else {
                    r is None && final(self)@ == old(self)@
                },
                None => r is None && final(self)@ == old(self)@,
            },
            final(self)@.len() + (if r is Some { 1int } else { 0int }) == old(self)@.len(),
            r is Some ==> forall|q: Seq<char>| #[trigger] owner_in(final(self)@, q) == match owner_in(old(self)@, q) {
                Some(o) => if o.capability == capability@ {
                    None
                } else {
                    Some(o)
                },
                None => None,
            },
    {
        let pos = match self.position(capability) {
            Some(p) => p,
            None => return None,
        };
        if self.capabilities[pos].session_id.0 != session_id.0 {
            return None;
        }
        let ghost v = self@;
        let found = self.capabilities[pos].copy();
        let mut kept: Vec<RegisteredCapability> = Vec::new();
        let mut i: usize = 0;
        assert(v.subrange(0, 0) =~= Seq::<CapabilityView>::empty());
        while i < self.capabilities.len()
            invariant
                i <= self.capabilities.len(),
                v == cap_views(self.capabilities@),
                cap_views(kept@) == caps_without(v.subrange(0, i as int), capability@),
            decreases self.capabilities.len() - i,
        {
            proof {
                lemma_cap_views_prefix(self.capabilities@, i + 1);
            }
            if !str_eq(self.capabilities[i].capability.as_str(), capability) {
                let ghost before = kept@;
                kept.push(self.capabilities[i].copy());
                assert(cap_views(kept@) =~= cap_views(before).push(self.capabilities@[i as int]@));
            }
            i = i + 1;
        }
        assert(v.subrange(0, v.len() as int) =~= v);
        proof {
            lemma_caps_without(v, capability@);
            lemma_removed_counts(v, session_id.0, capability@);
        }
        self.capabilities = kept;
        Some(found)
    }
}

/// A registration's result, by its views.
pub open spec fn registry_result(r: Result<RegisteredCapability, CapabilityRegistryError>) -> Result<
    CapabilityView,
    RegistryErrorView,
> {
    match r {
        Ok(c) => Ok(c@),
        Err(e) => Err(e@),
    }
}

/// The first name of `names`, from index `i` on, that a registered
/// capability already serves.
pub open spec fn first_owned(caps: Seq<CapabilityView>, names: Seq<Seq<char>>, i: int) -> Option<Seq<char>>
    decreases names.len() - i,
{
    if i < 0 || i >= names.len() {
        None
    } else if owner_in(caps, names[i]) is Some {
        Some(names[i])
    } else {
        first_owned(caps, names, i + 1)
    }
}

/// Why a registration conflicts with what is registered: its capability
/// name is taken, or else the first of its method names that is taken.
pub open spec fn conflict(caps: Seq<CapabilityView>, cap: Seq<char>, names: Seq<Seq<char>>) -> Option<
    RegistryErrorView,
> {
    if cap_named(caps, cap) is Some {
        Some(RegistryErrorView::CapabilityAlreadyRegistered(cap))
    } else {
        match first_owned(caps, names, 0) {
            Some(m) => Some(RegistryErrorView::MethodAlreadyRegistered(m)),
            None => None,
        }
    }
}

proof fn lemma_first_owned(caps: Seq<CapabilityView>, names: Seq<Seq<char>>, i: int, j: int)
    requires
        0 <= i <= j < names.len(),
        forall|k: int| i <= k < j ==> owner_in(caps, #[trigger] names[k]) is None,
        owner_in(caps, names[j]) is Some,
    ensures
        first_owned(caps, names, i) == Some(names[j]),
    decreases j - i,
{
    if i < j {
        lemma_first_owned(caps, names, i + 1, j);
    }
}

/// A failure that resolving the method against the store can give: what
/// storing its contract, or reading the contract its SHA names, can answer.
/// A bare name never fails.
pub open spec fn resolution_failure<S: ContractStore>(store: S, m: MethodRef, e: RegistryErrorView) -> bool {
    match m {
        MethodRef::Name(_) => false,
        MethodRef::Declared { name, contract } => exists|inserted: Result<ContractSha, ContractStoreError>|
            #[trigger] store.answers_insert(contract, inserted) && Err::<MethodView, RegistryErrorView>(e)
                == declared_method(name@, opt_text(contract.summary), inserted),
        MethodRef::Referenced { name, contract_sha } => exists|found: Result<Option<Contract>, ContractStoreError>|
            #[trigger] store.answers_get(contract_sha@, found) && Err::<MethodView, RegistryErrorView>(e)
                == referenced_method(name@, contract_sha@, found),
    }
}

/// A resolved method as the store's answer made it: for a full contract,
/// the SHA that storing it gave; for a SHA, the summary of the contract
/// stored under it.
pub open spec fn resolved_by_store<S: ContractStore>(store: S, m: MethodRef, v: MethodView) -> bool {
    match m {
        MethodRef::Name(_) => true,
        MethodRef::Declared { name, contract } => exists|inserted: Result<ContractSha, ContractStoreError>|
            #[trigger] store.answers_insert(contract, inserted) && Ok::<MethodView, RegistryErrorView>(v)
                == declared_method(name@, opt_text(contract.summary), inserted),
        MethodRef::Referenced { name, contract_sha } => exists|found: Result<Option<Contract>, ContractStoreError>|
            #[trigger] store.answers_get(contract_sha@, found) && Ok::<MethodView, RegistryErrorView>(v)
                == referenced_method(name@, contract_sha@, found),
    }
}

/// What a registration does to the registry, and what it answers: the
/// registration is checked first; a capability or method name already taken
/// refuses it; a contract failure refuses it; on success the capability is
/// appended and its methods are owned by the session.
pub open spec fn register_outcome<S: ContractStore>(
    store: S,
    old_caps: Seq<CapabilityView>,
    new_caps: Seq<CapabilityView>,
    session: u64,
    registration: CapabilityRegistration,
    r: Result<CapabilityView, RegistryErrorView>,
) -> bool {
    let cap = registration.capability@;
    let names = registration_names(registration.methods@);
    let problem = registration_problem(cap, names);
    &&& problem matches Some(p) ==> r matches Err(e) && e == p
    &&& r is Err ==> new_caps == old_caps
    &&& r matches Err(e) ==> (problem matches Some(p) && e == p) || (problem is None && (is_contract_error(e) || (e
        == RegistryErrorView::CapabilityAlreadyRegistered(cap) && cap_named(old_caps, cap) is Some) || (e matches RegistryErrorView::MethodAlreadyRegistered(
        m,
    ) && names.contains(m) && owner_in(old_caps, m) is Some && cap_named(old_caps, cap) is None)))
    &&& r matches Err(e) ==> (is_contract_error(e) ==> exists|i: int|
        0 <= i < registration.methods@.len() && #[trigger] resolution_failure(store, registration.methods@[i], e))
    &&& r matches Err(e) ==> (problem is None && !is_contract_error(e) ==> Some(e) == conflict(old_caps, cap, names))
    &&& r matches Ok(c) ==> forall|i: int|
        0 <= i < names.len() ==> resolved_by_store(store, registration.methods@[i], #[trigger] c.methods[i])
    &&& problem is None && cap_named(old_caps, cap) is Some ==> r is Err
    &&& problem is None && (exists|i: int| 0 <= i < names.len() && owner_in(old_caps, #[trigger] names[i]) is Some)
        ==> r is Err
    &&& problem is None && cap_named(old_caps, cap) is None && (forall|i: int|
        0 <= i < names.len() ==> owner_in(old_caps, #[trigger] names[i]) is None) && (forall|i: int|
        0 <= i < registration.methods@.len() ==> #[trigger] registration.methods@[i] is Name) ==> r is Ok
    &&& r matches Ok(c) ==> {
        &&& problem is None
        &&& cap_named(old_caps, cap) is None
        &&& c.capability == cap
        &&& c.session_id == session
        &&& c.version == opt_text(registration.version)
        &&& c.methods.len() == names.len()
        &&& forall|i: int| 0 <= i < names.len() ==> resolved_as(registration.methods@[i], #[trigger] c.methods[i])
        &&& new_caps == old_caps.push(c)
        &&& forall|i: int|
            0 <= i < names.len() ==> #[trigger] owner_in(new_caps, names[i]) == Some(
                OwnerView { capability: cap, session_id: session, contract_sha: c.methods[i].contract_sha },
            )
        &&& forall|q: Seq<char>| !names.contains(q) ==> #[trigger] owner_in(new_caps, q) == owner_in(old_caps, q)
    }
}

impl RuntimeCapabilityRegistry {
    /// Registers a capability for `session_id`. The registration is checked
    /// first; then each method is resolved in order (a full contract is
    /// stored, a SHA must name a stored contract), stopping at the first
    /// failure; then the capability name and the method names must be free.
    #[verifier::loop_isolation(false)]
    pub fn register<S: ContractStore>(
        &mut self,
        session_id: SessionId,
        registration: CapabilityRegistration,
        contract_store: &S,
    ) -> (r: Result<RegisteredCapability, CapabilityRegistryError>)
        requires
            old(self).wf(),
        ensures
            final(self).wf(),
            register_outcome(*contract_store, old(self)@, final(self)@, session_id.0, registration, registry_result(r)),
    {
        let ghost names = registration_names(registration.methods@);
        let ghost old_caps = self@;
        match validate_registration(&registration) {
            Ok(()) => {},
            Err(e) => {
                proof {
                    lemma_name_problem_kind(names, 0);
                }
                return Err(e);
            },
        }
        proof {
            lemma_name_problem_none(names, 0);
        }
        let mut resolved: Vec<RegisteredMethod> = Vec::new();
        let mut i: usize = 0;
        while i < registration.methods.len()
            invariant
                i <= registration.methods.len(),
                resolved@.len() == i,
                forall|j: int| 0 <= j < i ==> resolved_as(registration.methods@[j], #[trigger] resolved@[j]@),
                forall|j: int| 0 <= j < i ==> resolved_by_store(*contract_store, registration.methods@[j], #[trigger] resolved@[j]@),
                self@ == old_caps,
                self.wf(),
            decreases registration.methods.len() - i,
        {
            match resolve_method_ref(&registration.methods[i], contract_store) {
                Ok(m) => resolved.push(m),
                Err(e) => {
                    assert(!(registration.methods@[i as int] is Name));
                    assert(resolution_failure(*contract_store, registration.methods@[i as int], e@));
                    return Err(e);
                },
            }
            i = i + 1;
        }
        assert forall|k: int| 0 <= k < names.len() implies #[trigger] resolved@[k]@.name == names[k] by {
            assert(resolved_as(registration.methods@[k], resolved@[k]@));
        }
        if self.position(registration.capability.as_str()).is_some() {
            return Err(CapabilityRegistryError::CapabilityAlreadyRegistered(registration.capability));
        }
        let mut j: usize = 0;
        while j < resolved.len()
            invariant
                j <= resolved.len(),
                resolved@.len() == names.len(),
                forall|k: int| 0 <= k < names.len() ==> #[trigger] resolved@[k]@.name == names[k],
                forall|k: int| 0 <= k < j ==> owner_in(self@, #[trigger] names[k]) is None,
                forall|k: int| 0 <= k < resolved@.len() ==> resolved_by_store(*contract_store, registration.methods@[k], #[trigger] resolved@[k]@),
                self@ == old_caps,
            decreases resolved.len() - j,
        {
            if self.owner(resolved[j].name.as_str()).is_some() {
                assert(names[j as int] == resolved@[j as int]@.name);
                assert(names.contains(names[j as int]));
                proof {
                    lemma_first_owned(old_caps, names, 0, j as int);
                }
                return Err(CapabilityRegistryError::MethodAlreadyRegistered(resolved[j].name.clone()));
            }
            assert(names[j as int] == resolved@[j as int]@.name);
            j = j + 1;
        }
        let registered = RegisteredCapability {
            capability: registration.capability,
            methods: resolved,
            session_id,
            version: registration.version,
        };
        proof {
            let c = registered@;
            assert forall|a: int, b: int| 0 <= a < b < c.methods.len() implies c.methods[a].name != c.methods[b].name by {
                assert(c.methods[a].name == names[a]);
                assert(c.methods[b].name == names[b]);
            }
            assert forall|m: int| 0 <= m < c.methods.len() implies owner_in(old_caps, #[trigger] c.methods[m].name) is None by {
                assert(c.methods[m].name == names[m]);
            }
            lemma_push_views(old_caps, c);
        }
        let ghost before = self.capabilities@;
        self.capabilities.push(registered.copy());
        proof {
            let c = registered@;
            assert(self@ =~= old_caps.push(c));
            lemma_registered_owner(old_caps, c);
            assert forall|i: int| 0 <= i < names.len() implies #[trigger] owner_in(self@, names[i]) == Some(
                OwnerView { capability: c.capability, session_id: session_id.0, contract_sha: c.methods[i].contract_sha },
            ) by {
                assert(c.methods[i].name == names[i]);
            }
            assert forall|q: Seq<char>| !names.contains(q) implies #[trigger] owner_in(self@, q) == owner_in(old_caps, q) by {
                assert forall|m: int| 0 <= m < c.methods.len() implies c.methods[m].name != q by {
                    assert(c.methods[m].name == names[m]);
                }
            }
        }
        Ok(registered)
    }
}

impl Default for RuntimeCapabilityRegistry {
    fn default() -> (r: Self)
        ensures
            r@ == Seq::<CapabilityView>::empty(),
            r.wf(),
    {
        RuntimeCapabilityRegistry::new()
    }
}


proof fn lemma_caps_without_absent(caps: Seq<CapabilityView>, name: Seq<char>)
    requires
        cap_named(caps, name) is None,
    ensures
        caps_without(caps, name) == caps,
    decreases caps.len(),
{
    if caps.len() > 0 {
        lemma_caps_without_absent(caps.drop_last(), name);
        assert(caps.drop_last().push(caps.last()) =~= caps);
    }
}

/// Unregistering a capability right after registering it gives back the
/// registry as it was before.
pub proof fn lemma_unregister_undoes_register(caps: Seq<CapabilityView>, c: CapabilityView)
    requires
        cap_named(caps, c.capability) is None,
    ensures
        cap_named(caps.push(c), c.capability) == Some(c),
        caps_without(caps.push(c), c.capability) == caps,
{
    lemma_push_views(caps, c);
    lemma_caps_without_absent(caps, c.capability);
}

} // verus!
