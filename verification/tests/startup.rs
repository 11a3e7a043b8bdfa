use jormungandr_network::startup::{
    build_genesis_block, create_new_delegation_address, create_new_delegation_address_for,
    delegation_address_request, Delegation, DelegationAddressRequest, Discrimination,
};

#[test]
fn genesis_block_goes_to_block_0_bin() {
    let job = build_genesis_block("/tmp/genesis.yaml".to_string(), "/tmp/work".to_string());
    assert_eq!(job.input, "/tmp/genesis.yaml");
    assert_eq!(job.directory, "/tmp/work");
    assert_eq!(job.file_name, "block-0.bin");
}

#[test]
fn delegation_keeps_keys_and_address() {
    let d = create_new_delegation_address(
        "ed25519_pk1deleg".to_string(),
        "ed25519_sk1own".to_string(),
        "ed25519_pk1own".to_string(),
        "ta1address".to_string(),
    );
    assert_eq!(
        d,
        Delegation {
            private_key: "ed25519_sk1own".to_string(),
            public_key: "ed25519_pk1own".to_string(),
            address: "ta1address".to_string(),
            delegation_key: "ed25519_pk1deleg".to_string(),
        }
    );
}

#[test]
fn delegation_for_a_given_key_names_that_key() {
    let d = create_new_delegation_address_for(
        "ed25519_pk1pool",
        "sk".to_string(),
        "pk".to_string(),
        "addr".to_string(),
    );
    assert_eq!(d.delegation_key, "ed25519_pk1pool");
    assert_eq!(d.private_key, "sk");
    assert_eq!(d.public_key, "pk");
    assert_eq!(d.address, "addr");
}

#[test]
fn delegation_addresses_are_asked_for_the_test_network() {
    assert_eq!(
        delegation_address_request("pk", "ed25519_pk1pool"),
        DelegationAddressRequest {
            public_key: "pk".to_string(),
            delegation_key: "ed25519_pk1pool".to_string(),
            discrimination: Discrimination::Test,
        }
    );
}
