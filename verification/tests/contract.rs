use std::str::FromStr;

use skillsupport::contract::canonical::{canonical_bytes, canonical_value};
use skillsupport::contract::sha::validate;
use skillsupport::contract::store::{
    check_refs, check_stored, contract_sha_for_bytes, contract_sha_for_value, is_shard_name, presence, ref_answer,
    shas_from_listing,
};
use skillsupport::contract::{
    Contract, ContractSha, ContractStore, ContractStoreError, ExecutionMode,
    FilesystemContractStore,
};
use skillsupport::contract::models::default_execution;
use skillsupport::json::{JsonNumber, JsonValue};

fn num(n: u64) -> JsonValue {
    JsonValue::Number(JsonNumber::PosInt(n))
}

fn obj(entries: Vec<(&str, JsonValue)>) -> JsonValue {
    JsonValue::Object(
        entries
            .into_iter()
            .map(|(key, value)| (key.to_string(), value))
            .collect(),
    )
}

const MISSING: &str = "sha256:aaaaaaaaaaaaaaaaaaaaaaaaaaaaaaaaaaaaaaaaaaaaaaaaaaaaaaaaaaaaaaaa";

fn contract(name: &str) -> Contract {
    Contract {
        name: name.to_string(),
        version: Some("1.0.0".to_string()),
        summary: Some(format!("Run {name}")),
        params: Some(obj(vec![("type", JsonValue::String("object".to_string()))])),
        result: Some(obj(vec![("type", JsonValue::String("object".to_string()))])),
        execution: ExecutionMode::Immediate,
        cancelable: false,
        refs: Vec::new(),
    }
}

/// A store that holds nothing.
struct EmptyStore;

impl ContractStore for EmptyStore {
    fn insert(&self, contract: &Contract) -> Result<ContractSha, ContractStoreError> {
        check_refs(&contract.refs, self)?;
        Ok(contract_sha_for_bytes(contract.name.as_bytes()))
    }

    fn get(&self, _sha: &ContractSha) -> Result<Option<Contract>, ContractStoreError> {
        Ok(None)
    }

    fn list(&self) -> Result<Vec<ContractSha>, ContractStoreError> {
        Ok(Vec::new())
    }
}

#[test]
fn canonical_form_is_stable_across_object_key_order() {
    let left = obj(vec![
        ("b", num(2)),
        ("a", obj(vec![("d", num(4)), ("c", num(3))])),
    ]);
    let right = obj(vec![
        ("a", obj(vec![("c", num(3)), ("d", num(4))])),
        ("b", num(2)),
    ]);

    assert_eq!(canonical_bytes(&left), canonical_bytes(&right));
}

#[test]
fn canonical_bytes_are_compact_json_with_sorted_keys() {
    let value = obj(vec![
        ("b", num(2)),
        ("a", obj(vec![("d", num(4)), ("c", JsonValue::Array(vec![JsonValue::Bool(true), JsonValue::Null]))])),
        ("e", JsonValue::String("x y".to_string())),
        ("f", JsonValue::Number(JsonNumber::NegInt(-3))),
    ]);
    assert_eq!(
        String::from_utf8(canonical_bytes(&value)).expect("utf-8"),
        r#"{"a":{"c":[true,null],"d":4},"b":2,"e":"x y","f":-3}"#
    );
}

#[test]
fn contract_sha_ignores_member_order() {
    let left = obj(vec![("b", num(2)), ("a", num(1))]);
    let right = obj(vec![("a", num(1)), ("b", num(2))]);
    assert_eq!(contract_sha_for_value(&left), contract_sha_for_value(&right));
    assert_eq!(contract_sha_for_value(&left), contract_sha_for_bytes(br#"{"a":1,"b":2}"#));
    assert_ne!(contract_sha_for_value(&left), contract_sha_for_value(&obj(vec![("a", num(2))])));
}

#[test]
fn canonical_form_sorts_keys_at_every_depth() {
    let value = obj(vec![
        ("b", JsonValue::Array(vec![obj(vec![("z", num(1)), ("y", num(2))])])),
        ("a", JsonValue::Null),
    ]);
    let expected = obj(vec![
        ("a", JsonValue::Null),
        ("b", JsonValue::Array(vec![obj(vec![("y", num(2)), ("z", num(1))])])),
    ]);
    assert_eq!(canonical_value(&value), expected);
    assert_eq!(canonical_value(&canonical_value(&value)), expected);
}

#[test]
fn canonical_form_keeps_the_last_of_repeated_keys() {
    let value = obj(vec![("a", num(1)), ("a", num(2))]);
    assert_eq!(canonical_value(&value), obj(vec![("a", num(2))]));
}

#[test]
fn malformed_sha_is_rejected() {
    assert!(ContractSha::from_str("sha256:not-hex").is_err());
    assert!(ContractSha::from_str("browser.navigate").is_err());
}

#[test]
fn sha_accepts_digits_with_or_without_prefix() {
    let hex = "a".repeat(64);
    let bare = ContractSha::new(hex.clone()).expect("bare digits");
    let prefixed = ContractSha::new(format!("sha256:{hex}")).expect("prefixed digits");
    assert_eq!(bare, prefixed);
    assert_eq!(bare.as_str(), MISSING);
    assert_eq!(bare.hex(), hex);
    assert!(ContractSha::new("a".repeat(63)).is_err());
    assert!(ContractSha::new("A".repeat(64)).is_ok());
    let error = ContractSha::new("xyz".to_string()).expect_err("not hex");
    assert_eq!(error.message(), "invalid contract sha: sha256:xyz");
    assert!(validate(MISSING).is_ok());
    assert!(validate("sha256:").is_err());
}

#[test]
fn contract_sha_is_the_sha256_of_the_bytes() {
    let empty = contract_sha_for_bytes(b"");
    assert_eq!(
        empty.as_str(),
        "sha256:e3b0c44298fc1c149afbf4c8996fb92427ae41e4649b934ca495991b7852b855"
    );
    let abc = contract_sha_for_bytes(b"abc");
    assert_eq!(
        abc.as_str(),
        "sha256:ba7816bf8f01cfea414140de5dae2223b00361a396177a9cb410ff61f20015ad"
    );
    assert_eq!(contract_sha_for_bytes(b"abc"), abc);
}

#[test]
fn store_paths_follow_the_shard_layout() {
    let store = FilesystemContractStore::new("/work");
    assert_eq!(store.root(), "/work/caps/.contracts");
    let sha = ContractSha::from_str(MISSING).expect("valid sha");
    assert_eq!(
        store.path_for(&sha),
        format!("/work/caps/.contracts/sha256/aa/{}.json", "a".repeat(62))
    );
}

#[test]
fn stored_bytes_decide_an_insert() {
    let sha = ContractSha::from_str(MISSING).expect("valid sha");
    assert!(matches!(check_stored(None, b"{}", sha.clone()), Ok(true)));
    assert!(matches!(
        check_stored(Some(b"{}".to_vec()), b"{}", sha.clone()),
        Ok(false)
    ));
    let error = check_stored(Some(b"{\"a\":1}".to_vec()), b"{}", sha.clone())
        .expect_err("mismatch");
    assert!(matches!(error, ContractStoreError::Mismatch { sha: s } if s == sha));
}

#[test]
fn dangling_ref_is_rejected() {
    let store = EmptyStore;
    let missing = ContractSha::from_str(MISSING).expect("valid sha");
    let mut contract = contract("browser.screenshot");
    contract.refs.push(missing.clone());

    let error = store.insert(&contract).expect_err("dangling ref");

    assert!(matches!(
        error,
        ContractStoreError::DanglingRef { sha } if sha == missing
    ));
}

#[test]
fn store_errors_read_as_messages() {
    let sha = ContractSha::from_str(MISSING).expect("valid sha");
    assert_eq!(
        ContractStoreError::Mismatch { sha: sha.clone() }.message(),
        format!("contract mismatch for {MISSING}")
    );
    assert_eq!(
        ContractStoreError::Unknown { sha: sha.clone() }.message(),
        format!("unknown contract sha: {MISSING}")
    );
    assert_eq!(
        ContractStoreError::DanglingRef { sha }.message(),
        format!("dangling contract ref: {MISSING}")
    );
    assert_eq!(
        ContractStoreError::Io("gone".to_string()).message(),
        "contract store I/O error: gone"
    );
    assert_eq!(
        ContractStoreError::Json("bad".to_string()).message(),
        "contract store JSON error: bad"
    );
    assert_eq!(
        ContractStoreError::Other("x".to_string()).message(),
        "contract store error: x"
    );
}

#[test]
fn listing_is_sorted_and_checked() {
    let b = "b".repeat(62);
    let a = "a".repeat(62);
    let entries = vec![
        ("ff".to_string(), b.clone()),
        ("00".to_string(), a.clone()),
        ("ff".to_string(), a.clone()),
    ];
    let shas = shas_from_listing(&entries).expect("valid listing");
    let texts: Vec<&str> = shas.iter().map(|sha| sha.as_str()).collect();
    assert_eq!(
        texts,
        vec![
            format!("sha256:00{a}"),
            format!("sha256:ff{a}"),
            format!("sha256:ff{b}"),
        ]
    );

    let bad = vec![("00".to_string(), a.clone()), ("zz".to_string(), "nope".to_string())];
    let error = shas_from_listing(&bad).expect_err("invalid name");
    assert!(matches!(
        error,
        ContractStoreError::Other(message) if message == "invalid contract sha: sha256:zznope"
    ));
    assert!(shas_from_listing(&Vec::new()).expect("empty").is_empty());
}

#[test]
fn shard_names_are_two_bytes() {
    assert!(is_shard_name("ab"));
    assert!(is_shard_name("é"));
    assert!(!is_shard_name("abc"));
    assert!(!is_shard_name("a"));
    assert!(!is_shard_name("aé"));
}

#[test]
fn execution_defaults_to_immediate() {
    assert_eq!(default_execution(), ExecutionMode::Immediate);
}

#[test]
fn each_store_answer_about_a_reference_decides() {
    let sha = ContractSha::from_str(MISSING).expect("valid sha");
    assert!(ref_answer(&sha, Ok(true)).is_ok());
    assert!(matches!(
        ref_answer(&sha, Ok(false)),
        Err(ContractStoreError::DanglingRef { sha: s }) if s == sha
    ));
    assert!(matches!(
        ref_answer(&sha, Err(ContractStoreError::Io("gone".to_string()))),
        Err(ContractStoreError::Io(m)) if m == "gone"
    ));
    assert!(check_refs(&Vec::new(), &EmptyStore).is_ok());
}

#[test]
fn presence_follows_what_the_store_read() {
    assert!(matches!(presence(Ok(Some(contract("a")))), Ok(true)));
    assert!(matches!(presence(Ok(None)), Ok(false)));
    assert!(matches!(
        presence(Err(ContractStoreError::Json("bad".to_string()))),
        Err(ContractStoreError::Json(m)) if m == "bad"
    ));
    let sha = ContractSha::from_str(MISSING).expect("valid sha");
    assert!(matches!(EmptyStore.contains(&sha), Ok(false)));
}

/// A store that holds the listed SHAs, fails on one, and records what it is
/// asked about.
struct AskedStore {
    held: Vec<ContractSha>,
    failing: Option<ContractSha>,
    asked: std::cell::RefCell<Vec<String>>,
}

impl ContractStore for AskedStore {
    fn insert(&self, contract: &Contract) -> Result<ContractSha, ContractStoreError> {
        check_refs(&contract.refs, self)?;
        Ok(contract_sha_for_bytes(contract.name.as_bytes()))
    }

    fn get(&self, sha: &ContractSha) -> Result<Option<Contract>, ContractStoreError> {
        self.asked.borrow_mut().push(sha.as_str().to_string());
        if self.failing.as_ref() == Some(sha) {
            return Err(ContractStoreError::Io("disk gone".to_string()));
        }
        Ok(self.held.contains(sha).then(|| contract("held")))
    }

    fn list(&self) -> Result<Vec<ContractSha>, ContractStoreError> {
        Ok(self.held.clone())
    }
}

fn sha_of(digit: char) -> ContractSha {
    ContractSha::new(std::iter::repeat(digit).take(64).collect::<String>()).expect("valid sha")
}

#[test]
fn references_are_asked_about_in_order_until_one_is_not_stored() {
    let (a, b, c) = (sha_of('a'), sha_of('b'), sha_of('c'));
    let store = AskedStore { held: vec![a.clone(), c.clone()], failing: None, asked: Default::default() };
    assert!(check_refs(&vec![a.clone(), c.clone()], &store).is_ok());
    assert_eq!(*store.asked.borrow(), vec![a.as_str().to_string(), c.as_str().to_string()]);

    store.asked.borrow_mut().clear();
    let refused = check_refs(&vec![a.clone(), b.clone(), c.clone()], &store);
    assert!(matches!(refused, Err(ContractStoreError::DanglingRef { sha }) if sha == b));
    assert_eq!(*store.asked.borrow(), vec![a.as_str().to_string(), b.as_str().to_string()]);

    let failing = AskedStore { held: vec![a.clone()], failing: Some(c.clone()), asked: Default::default() };
    let refused = check_refs(&vec![a.clone(), c.clone(), b.clone()], &failing);
    assert!(matches!(refused, Err(ContractStoreError::Io(m)) if m == "disk gone"));
    assert_eq!(failing.asked.borrow().len(), 2);

    let mut dangling = contract("browser.screenshot");
    dangling.refs = vec![b.clone()];
    assert!(matches!(store.insert(&dangling), Err(ContractStoreError::DanglingRef { sha }) if sha == b));
}

#[test]
fn distinct_shas_are_stored_in_distinct_files() {
    let store = FilesystemContractStore::new("/w");
    let a = sha_of('a');
    let mut digits: String = std::iter::repeat('a').take(64).collect();
    digits.replace_range(2..3, "b");
    let b = ContractSha::new(digits).expect("valid sha");
    let c = ContractSha::new(format!("ab{}", "a".repeat(62))).expect("valid sha");
    let paths = [store.path_for(&a), store.path_for(&b), store.path_for(&c)];
    assert_eq!(paths[0], format!("/w/caps/.contracts/sha256/aa/{}.json", "a".repeat(62)));
    assert_ne!(paths[0], paths[1]);
    assert_ne!(paths[0], paths[2]);
    assert_ne!(paths[1], paths[2]);
}
