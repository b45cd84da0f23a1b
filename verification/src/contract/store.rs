use vstd::prelude::*;

use sha2::{Digest, Sha256};

use crate::contract::canonical::{
    canonical, canonical_bytes, canonical_members, compact_json, lemma_canonical_bytes_member_order,
};
use crate::contract::models::Contract;
use crate::json::{lookup, JsonValue, JsonView};
use crate::contract::sha::{sha_prefix, valid_sha, with_sha_prefix, ContractSha};
use crate::text::{
    hex_lower, is_hex_digit, lemma_seq_lt_irreflexive, lemma_seq_lt_transitive, push_str, seq_lt, str_lt,
    string_of,
};
use crate::utils::paths::{contracts_dir_for, join, join_path};

verus! {

/// The SHA-256 digest of a byte string.
pub uninterp spec fn sha256_digest(data: Seq<u8>) -> Seq<u8>;

/// `sha2::Sha256::digest`: the SHA-256 digest of `data`, 32 bytes long
/// (the output size of `Sha256`). The contract names the digest and states
/// its length; which bytes it holds is left to the crate.
#[verifier::external_body]
fn sha256(data: &[u8]) -> (r: Vec<u8>)
    ensures
        r@ == sha256_digest(data@),
        r@.len() == 32,
{
    Sha256::digest(data).to_vec()
}

/// The address of stored content: `sha256:` and the lowercase hex digest of
/// its bytes.
pub open spec fn content_sha(bytes: Seq<u8>) -> Seq<char> {
    sha_prefix() + hex_lower(sha256_digest(bytes))
}

/// The contract SHA of a canonical contract encoding.
pub fn contract_sha_for_bytes(bytes: &[u8]) -> (r: ContractSha)
    ensures
        r@ == content_sha(bytes@),
{
    let digest = sha256(bytes);
    ContractSha::from_digest(digest.as_slice())
}

/// The contract SHA of a document: the SHA of its canonical encoding.
pub fn contract_sha_for_value(value: &JsonValue) -> (r: ContractSha)
    ensures
        r@ == content_sha(compact_json(canonical(value.view()))),
{
    let bytes = canonical_bytes(value);
    contract_sha_for_bytes(bytes.as_slice())
}

/// Two objects that give each key the same value, up to canonical form,
/// have the same contract SHA, whatever order their members come in.
pub proof fn lemma_sha_member_order(e1: Seq<(Seq<char>, JsonView)>, e2: Seq<(Seq<char>, JsonView)>)
    requires
        forall|q: Seq<char>| #[trigger] lookup(canonical_members(e1), q) == lookup(canonical_members(e2), q),
    ensures
        content_sha(compact_json(canonical(JsonView::Object(e1)))) == content_sha(
            compact_json(canonical(JsonView::Object(e2))),
        ),
{
    lemma_canonical_bytes_member_order(e1, e2);
}

/// What can go wrong when storing or reading contracts. The I/O and JSON
/// variants hold the message of the underlying error.
#[derive(Debug)]
pub enum ContractStoreError {
    Mismatch { sha: ContractSha },
    Unknown { sha: ContractSha },
    DanglingRef { sha: ContractSha },
    Io(String),
    Json(String),
    Other(String),
}

/// The message of a store error.
pub open spec fn store_error_message(e: ContractStoreError) -> Seq<char> {
    match e {
        ContractStoreError::Mismatch { sha } => "contract mismatch for "@ + sha@,
        ContractStoreError::Unknown { sha } => "unknown contract sha: "@ + sha@,
        ContractStoreError::DanglingRef { sha } => "dangling contract ref: "@ + sha@,
        ContractStoreError::Io(m) => "contract store I/O error: "@ + m@,
        ContractStoreError::Json(m) => "contract store JSON error: "@ + m@,
        ContractStoreError::Other(m) => "contract store error: "@ + m@,
    }
}

impl ContractStoreError {
    /// The error's message.
    pub fn message(&self) -> (r: String)
        ensures
            r@ == store_error_message(*self),
            r@ == match self {
                ContractStoreError::Mismatch { sha } => "contract mismatch for "@ + sha@,
                ContractStoreError::Unknown { sha } => "unknown contract sha: "@ + sha@,
                ContractStoreError::DanglingRef { sha } => "dangling contract ref: "@ + sha@,
                ContractStoreError::Io(m) => "contract store I/O error: "@ + m@,
                ContractStoreError::Json(m) => "contract store JSON error: "@ + m@,
                ContractStoreError::Other(m) => "contract store error: "@ + m@,
            },
    {
        let (head, tail) = match self {
            ContractStoreError::Mismatch { sha } => ("contract mismatch for ", sha.as_str()),
            ContractStoreError::Unknown { sha } => ("unknown contract sha: ", sha.as_str()),
            ContractStoreError::DanglingRef { sha } => ("dangling contract ref: ", sha.as_str()),
            ContractStoreError::Io(m) => ("contract store I/O error: ", m.as_str()),
            ContractStoreError::Json(m) => ("contract store JSON error: ", m.as_str()),
            ContractStoreError::Other(m) => ("contract store error: ", m.as_str()),
        };
        let mut r = string_of(head);
        push_str(&mut r, tail);
        r
    }
}

/// A content-addressed store of contracts, which users implement. What it
/// answers depends on what it holds, so its methods promise no particular
/// result. Each answer is recorded by a relation of the store: which
/// contract was handed to `insert`, which SHA `get` was asked about, and
/// what came back. Implementations define the relations; nothing here
/// constrains them beyond that.
pub trait ContractStore: Sized {
    /// `r` is an answer the store gives to storing `contract`.
    open spec fn answers_insert(&self, contract: Contract, r: Result<ContractSha, ContractStoreError>) -> bool {
        vstd::pervasive::arbitrary::<spec_fn(Self, Contract, Result<ContractSha, ContractStoreError>) -> bool>()(*self, contract, r)
    }

    /// `r` is an answer the store gives to reading the contract stored
    /// under `sha`.
    open spec fn answers_get(&self, sha: Seq<char>, r: Result<Option<Contract>, ContractStoreError>) -> bool {
        vstd::pervasive::arbitrary::<spec_fn(Self, Seq<char>, Result<Option<Contract>, ContractStoreError>) -> bool>()(*self, sha, r)
    }

    /// `r` is an answer the store gives to listing what it holds.
    open spec fn answers_list(&self, r: Result<Vec<ContractSha>, ContractStoreError>) -> bool {
        vstd::pervasive::arbitrary::<spec_fn(Self, Result<Vec<ContractSha>, ContractStoreError>) -> bool>()(*self, r)
    }

    fn insert(&self, contract: &Contract) -> (r: Result<ContractSha, ContractStoreError>)
        ensures
            self.answers_insert(*contract, r),
    ;

    fn get(&self, sha: &ContractSha) -> (r: Result<Option<Contract>, ContractStoreError>)
        ensures
            self.answers_get(sha@, r),
    ;

    fn list(&self) -> (r: Result<Vec<ContractSha>, ContractStoreError>)
        ensures
            self.answers_list(r),
    ;

    /// Whether a contract is stored under `sha`: what reading it gives, as
    /// `presence` reads it.
    fn contains(&self, sha: &ContractSha) -> (r: Result<bool, ContractStoreError>)
        ensures
            exists|found: Result<Option<Contract>, ContractStoreError>|
                #[trigger] self.answers_get(sha@, found) && r == presence_of(found),
    {
        let found = self.get(sha);
        let ghost f = found;
        let r = presence(found);
        assert(self.answers_get(sha@, f) && r == presence_of(f));
        r
    }
}

/// What `presence` makes of an answer to a read.
pub open spec fn presence_of(found: Result<Option<Contract>, ContractStoreError>) -> Result<bool, ContractStoreError> {
    match found {
        Ok(c) => Ok(c is Some),
        Err(e) => Err(e),
    }
}

/// Whether a contract is stored, given what reading it from the store gave:
/// whether a contract came back, or the store's failure.
pub fn presence(found: Result<Option<Contract>, ContractStoreError>) -> (r: Result<bool, ContractStoreError>)
    ensures
        match found {
            Ok(c) => r == Ok::<bool, ContractStoreError>(c is Some),
            Err(e) => r == Err::<bool, ContractStoreError>(e),
        },
{
    match found {
        Ok(contract) => Ok(contract.is_some()),
        Err(error) => Err(error),
    }
}

/// Where contracts of a workspace live on disk: `caps/.contracts` under the
/// workspace root, one file per contract at `sha256/<2 hex>/<62 hex>.json`.
#[derive(Debug)]
pub struct FilesystemContractStore {
    root: String,
}

impl Clone for FilesystemContractStore {
    fn clone(&self) -> (r: Self)
        ensures
            r@ == self@,
    {
        FilesystemContractStore { root: self.root.clone() }
    }
}

impl View for FilesystemContractStore {
    type V = Seq<char>;

    /// The directory holding the store.
    closed spec fn view(&self) -> Seq<char> {
        self.root@
    }
}

/// The file of the contract with the given SHA text, under the store root.
pub open spec fn contract_path(root: Seq<char>, sha: Seq<char>) -> Seq<char> {
    join_path(
        join_path(join_path(root, "sha256"@), sha.subrange(7, 9)),
        sha.subrange(9, 71) + ".json"@,
    )
}

/// The file of a contract: the store root, `/sha256/`, the two shard digits,
/// `/`, the other digits and `.json`.
proof fn lemma_contract_path_layout(root: Seq<char>, sha: Seq<char>)
    requires
        valid_sha(sha),
    ensures
        contract_path(root, sha) == join_path(root, "sha256"@) + seq!['/'] + sha.subrange(7, 9) + seq!['/']
            + sha.subrange(9, 71) + ".json"@,
{
    reveal_strlit("sha256");
    let base = join_path(root, "sha256"@);
    let tail = "sha256"@;
    assert(tail.len() == 6 && tail[5] == '6');
    assert(base.len() > 0 && base.last() == '6') by {
        if root.len() == 0 {
            assert(base == tail);
        } else if root.last() == '/' {
            assert(base == root + tail);
            assert(base[base.len() - 1] == tail[5]);
        } else {
            assert(base == root + seq!['/'] + tail);
            assert(base[base.len() - 1] == tail[5]);
        }
    }
    let shard = sha.subrange(7, 9);
    let dir = join_path(base, shard);
    assert(dir == base + seq!['/'] + shard);
    assert(is_hex_digit(sha[8]));
    assert(dir.last() == sha[8]);
    assert(dir.last() != '/');
}

/// Distinct contract SHAs are stored in distinct files under one root.
pub proof fn lemma_contract_path_injective(root: Seq<char>, a: Seq<char>, b: Seq<char>)
    requires
        valid_sha(a),
        valid_sha(b),
        a != b,
    ensures
        contract_path(root, a) != contract_path(root, b),
{
    lemma_contract_path_layout(root, a);
    lemma_contract_path_layout(root, b);
    let n = join_path(root, "sha256"@).len();
    if contract_path(root, a) == contract_path(root, b) {
        let pa = contract_path(root, a);
        let pb = contract_path(root, b);
        assert forall|i: int| 0 <= i < 71 implies a[i] == b[i] by {
            if i < 7 {
                assert(a.subrange(0, 7)[i] == b.subrange(0, 7)[i]);
            } else if i < 9 {
                assert(pa[n + 1 + (i - 7)] == a[i]);
                assert(pb[n + 1 + (i - 7)] == b[i]);
            } else {
                assert(pa[n + 4 + (i - 9)] == a[i]);
                assert(pb[n + 4 + (i - 9)] == b[i]);
            }
        }
        assert(a =~= b);
    }
}

impl FilesystemContractStore {
    pub fn new(workspace_root: &str) -> (r: Self)
        ensures
            r@ == join_path(join_path(workspace_root@, "caps"@), ".contracts"@),
    {
        FilesystemContractStore { root: contracts_dir_for(workspace_root) }
    }

    pub fn root(&self) -> (r: &str)
        ensures
            r@ == self@,
    {
        self.root.as_str()
    }

    /// `<root>/sha256/<first two hex digits>/<other 62 hex digits>.json`.
    pub fn path_for(&self, sha: &ContractSha) -> (r: String)
        ensures
            r@ == contract_path(self@, sha@),
    {
        let hex = sha.hex();
        let shard = hex.substring_char(0, 2);
        let mut file = string_of(hex.substring_char(2, 64));
        push_str(&mut file, ".json");
        proof {
            reveal_strlit(".json");
            assert(shard@ =~= sha@.subrange(7, 9));
            assert(file@ =~= sha@.subrange(9, 71) + ".json"@);
        }
        let base = join(self.root.as_str(), "sha256");
        let dir = join(base.as_str(), shard);
        join(dir.as_str(), file.as_str())
    }
}

/// Whether two byte strings are equal.
fn bytes_eq(a: &[u8], b: &[u8]) -> (r: bool)
    ensures
        r == (a@ == b@),
{
    if a.len() != b.len() {
        return false;
    }
    let mut i: usize = 0;
    while i < a.len()
        invariant
            i <= a.len(),
            a@.len() == b@.len(),
            forall|j: int| 0 <= j < i ==> a@[j] == b@[j],
        decreases a.len() - i,
    {
        if a[i] != b[i] {
            return false;
        }
        i = i + 1;
    }
    assert(a@ =~= b@);
    true
}

/// Decides what storing a contract comes to once its canonical bytes and
/// the file already stored under its SHA, if any, are known: nothing stored
/// means the bytes are to be written (`Ok(true)`); the same bytes stored
/// means the contract is there already (`Ok(false)`); other bytes stored
/// under that SHA are a mismatch.
pub fn check_stored(existing: Option<Vec<u8>>, bytes: &[u8], sha: ContractSha) -> (r: Result<
    bool,
    ContractStoreError,
>)
    ensures
        match existing {
            None => r matches Ok(true),
            Some(e) => if e@ == bytes@ {
                r matches Ok(false)
            } else {
                r matches Err(ContractStoreError::Mismatch { sha: s }) && s@ == sha@
            },
        },
{
    match existing {
        None => Ok(true),
        Some(e) => {
            if bytes_eq(e.as_slice(), bytes) {
                Ok(false)
            } else {
                Err(ContractStoreError::Mismatch { sha })
            }
        },
    }
}

/// What the store's answer about one referenced contract comes to: stored
/// is fine, missing is a dangling reference to it, and a failure of the
/// store is passed on.
pub fn ref_answer(sha: &ContractSha, present: Result<bool, ContractStoreError>) -> (r: Result<(), ContractStoreError>)
    ensures
        match present {
            Ok(true) => r is Ok,
            Ok(false) => r matches Err(ContractStoreError::DanglingRef { sha: s }) && s@ == sha@,
            Err(e) => r == Err::<(), ContractStoreError>(e),
        },
{
    match present {
        Ok(true) => Ok(()),
        Ok(false) => Err(ContractStoreError::DanglingRef { sha: sha.copy() }),
        Err(error) => Err(error),
    }
}

/// `r` is an answer `contains` can give about `sha`: what a read of `sha`
/// answered, as `presence` reads it.
pub open spec fn presence_answer<S: ContractStore>(store: S, sha: Seq<char>, r: Result<bool, ContractStoreError>) -> bool {
    exists|found: Result<Option<Contract>, ContractStoreError>|
        #[trigger] store.answers_get(sha, found) && r == presence_of(found)
}

/// How the store's answer about `sha` refuses a contract: the contract is
/// reported missing, and the error is a dangling reference to it; or the
/// store failed with that error.
pub open spec fn refused_by<S: ContractStore>(store: S, sha: ContractSha, e: ContractStoreError) -> bool {
    ||| presence_answer(store, sha@, Ok(false)) && (e matches ContractStoreError::DanglingRef { sha: s } && s@ == sha@)
    ||| presence_answer(store, sha@, Err(e))
}

/// Checks that every contract a new contract refers to is stored, asking
/// the store about each in order and stopping at the first answer that is
/// not "stored" (see `ref_answer`): success means every reference was
/// reported stored; a failure comes from the first reference that was not.
pub fn check_refs<S: ContractStore>(refs: &Vec<ContractSha>, store: &S) -> (r: Result<(), ContractStoreError>)
    ensures
        refs@.len() == 0 ==> r is Ok,
        r is Ok ==> forall|i: int| 0 <= i < refs@.len() ==> presence_answer(*store, #[trigger] refs@[i]@, Ok(true)),
        r matches Err(e) ==> exists|k: int|
            0 <= k < refs@.len() && (forall|j: int|
                0 <= j < k ==> presence_answer(*store, #[trigger] refs@[j]@, Ok(true))) && #[trigger] refused_by(
                *store,
                refs@[k],
                e,
            ),
{
    let mut i: usize = 0;
    while i < refs.len()
        invariant
            i <= refs.len(),
            forall|j: int| 0 <= j < i ==> presence_answer(*store, #[trigger] refs@[j]@, Ok(true)),
        decreases refs.len() - i,
    {
        let present = store.contains(&refs[i]);
        let ghost p = present;
        assert(presence_answer(*store, refs@[i as int]@, p));
        match ref_answer(&refs[i], present) {
            Err(e) => {
                assert(refused_by(*store, refs@[i as int], e));
                return Err(e);
            },
            Ok(()) => {},
        }
        i = i + 1;
    }
    Ok(())
}

/// Whether a directory name can be a shard of the store: two bytes long in
/// UTF-8, that is two ASCII characters, or one character from U+0080 to
/// U+07FF.
pub open spec fn shard_name_ok(name: Seq<char>) -> bool {
    ||| name.len() == 2 && (name[0] as u32) < 0x80 && (name[1] as u32) < 0x80
    ||| name.len() == 1 && 0x80 <= (name[0] as u32) < 0x800
}

pub fn is_shard_name(name: &str) -> (r: bool)
    ensures
        r == shard_name_ok(name@),
{
    let chars = crate::text::chars_of(name);
    if chars.len() == 2 {
        (chars[0] as u32) < 0x80 && (chars[1] as u32) < 0x80
    } else if chars.len() == 1 {
        0x80 <= (chars[0] as u32) && (chars[0] as u32) < 0x800
    } else {
        false
    }
}

/// The SHA texts a listing names: for each shard name and file stem, the
/// shard name followed by the stem, with `sha256:` put in front.
pub open spec fn listed_shas(entries: Seq<(String, String)>) -> Seq<Seq<char>> {
    Seq::new(entries.len(), |i: int| with_sha_prefix(entries[i].0@ + entries[i].1@))
}

pub open spec fn sha_views(v: Seq<ContractSha>) -> Seq<Seq<char>> {
    Seq::new(v.len(), |i: int| v[i]@)
}

/// In non-decreasing order.
pub open spec fn sorted_shas(s: Seq<Seq<char>>) -> bool {
    forall|i: int, j: int| 0 <= i < j < s.len() ==> !seq_lt(#[trigger] s[j], #[trigger] s[i])
}

/// Inserts `x` into a sorted vector after every element not greater than it.
fn insert_sorted(out: &mut Vec<ContractSha>, x: ContractSha)
    requires
        sorted_shas(sha_views(old(out)@)),
    ensures
        sorted_shas(sha_views(final(out)@)),
        sha_views(final(out)@).to_multiset() == sha_views(old(out)@).to_multiset().insert(x@),
{
    let ghost v = sha_views(out@);
    let mut p: usize = 0;
    while p < out.len() && !str_lt(x.as_str(), out[p].as_str())
        invariant
            p <= out.len(),
            v == sha_views(out@),
            forall|k: int| 0 <= k < p ==> !seq_lt(x@, #[trigger] v[k]),
        decreases out.len() - p,
    {
        p = p + 1;
    }
    let ghost xv = x@;
    out.insert(p, x);
    proof {
        let w = sha_views(out@);
        assert(w =~= v.insert(p as int, xv));
        vstd::seq_lib::to_multiset_insert(v, p as int, xv);
        assert forall|i: int, j: int| 0 <= i < j < w.len() implies !seq_lt(#[trigger] w[j], #[trigger] w[i]) by {
            if j < p {
                assert(w[i] == v[i] && w[j] == v[j]);
            } else if j == p {
                assert(w[i] == v[i]);
            } else if i < p {
                assert(w[i] == v[i] && w[j] == v[j - 1]);
                if i == j - 1 {
                    lemma_seq_lt_irreflexive(v[i]);
                }
            } else if i == p {
                assert(w[j] == v[j - 1]);
                assert(seq_lt(xv, v[p as int]));
                if seq_lt(v[j - 1], xv) {
                    lemma_seq_lt_transitive(v[j - 1], xv, v[p as int]);
                    if j - 1 > p {
                        assert(!seq_lt(v[j - 1], v[p as int]));
                    } else {
                        lemma_seq_lt_irreflexive(v[p as int]);
                    }
                }
            } else {
                assert(w[i] == v[i - 1] && w[j] == v[j - 1]);
            }
        }
    }
}

/// The SHAs of the contracts a store directory holds, sorted, given what
/// walking it found: a shard name and a file stem for each `.json` file of
/// each shard. A name that is not a SHA is an error, the first in walking
/// order.
pub fn shas_from_listing(entries: &Vec<(String, String)>) -> (r: Result<Vec<ContractSha>, ContractStoreError>)
    ensures
        r is Ok <==> forall|i: int| 0 <= i < entries@.len() ==> valid_sha(#[trigger] listed_shas(entries@)[i]),
        r matches Ok(v) ==> sorted_shas(sha_views(v@)) && sha_views(v@).to_multiset() == listed_shas(
            entries@,
        ).to_multiset(),
        r matches Err(e) ==> exists|i: int|
            0 <= i < entries@.len() && !valid_sha(#[trigger] listed_shas(entries@)[i]) && (forall|j: int|
                0 <= j < i ==> valid_sha(listed_shas(entries@)[j])) && (e matches ContractStoreError::Other(m)
                && m@ == "invalid contract sha: "@ + listed_shas(entries@)[i]),
{
    let ghost names = listed_shas(entries@);
    let mut out: Vec<ContractSha> = Vec::new();
    let mut i: usize = 0;
    assert(sha_views(out@) =~= Seq::<Seq<char>>::empty());
    assert(names.subrange(0, 0) =~= Seq::<Seq<char>>::empty());
    while i < entries.len()
        invariant
            i <= entries.len(),
            names == listed_shas(entries@),
            forall|j: int| 0 <= j < i ==> valid_sha(#[trigger] names[j]),
            sorted_shas(sha_views(out@)),
            sha_views(out@).to_multiset() == names.subrange(0, i as int).to_multiset(),
        decreases entries.len() - i,
    {
        let mut text = entries[i].0.clone();
        push_str(&mut text, entries[i].1.as_str());
        match ContractSha::new(text) {
            Err(error) => {
                assert(!valid_sha(names[i as int]));
                return Err(ContractStoreError::Other(error.message()));
            },
            Ok(sha) => {
                assert(sha@ == names[i as int]);
                insert_sorted(&mut out, sha);
                proof {
                    assert(names.subrange(0, i + 1) =~= names.subrange(0, i as int).push(names[i as int]));
                    vstd::seq_lib::to_multiset_build(names.subrange(0, i as int), names[i as int]);
                }
            },
        }
        i = i + 1;
    }
    assert(names.subrange(0, entries@.len() as int) =~= names);
    Ok(out)
}

} // verus!
