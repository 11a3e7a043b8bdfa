//! Helpers for bringing up a node on a test network. The command-line tool
//! that makes keys, addresses and the genesis block is run by the caller;
//! what is decided here is what to ask of it and how its answers fit
//! together.
use vstd::prelude::*;

verus! {

/// The network an address is meant for.
#[derive(Clone, Copy, PartialEq, Eq, Structural, Debug)]
pub enum Discrimination {
    Production,
    Test,
}

/// The encoding of a genesis description into a genesis block.
#[derive(Debug, PartialEq, Eq)]
pub struct GenesisEncoding {
    /// The file that holds the serialised description.
    pub input: String,
    /// The directory that receives the block.
    pub directory: String,
    /// The name of the block's file in that directory.
    pub file_name: String,
}

/// An address with stake delegation, and the keys behind it.
#[derive(Debug, PartialEq, Eq)]
pub struct Delegation {
    pub private_key: String,
    pub public_key: String,
    pub address: String,
    pub delegation_key: String,
}

/// What to ask for to obtain a delegation address.
#[derive(Debug, PartialEq, Eq)]
pub struct DelegationAddressRequest {
    pub public_key: String,
    pub delegation_key: String,
    pub discrimination: Discrimination,
}

/// The encoding to run for the description serialised at
/// `input_yaml_file_path`: the block goes to `block-0.bin` in `temp_dir`.
pub fn build_genesis_block(input_yaml_file_path: String, temp_dir: String) -> (job:
    GenesisEncoding)
    ensures
        job.input == input_yaml_file_path,
        job.directory == temp_dir,
        job.file_name@ == "block-0.bin"@,
{
    GenesisEncoding {
        input: input_yaml_file_path,
        directory: temp_dir,
        file_name: "block-0.bin".to_owned(),
    }
}

/// The request for the address of `public_key` that delegates to
/// `delegation_public_key`. Such addresses are made for the test network.
pub fn delegation_address_request(public_key: &str, delegation_public_key: &str) -> (request:
    DelegationAddressRequest)
    ensures
        request.public_key@ == public_key@,
        request.delegation_key@ == delegation_public_key@,
        request.discrimination == Discrimination::Test,
{
    DelegationAddressRequest {
        public_key: public_key.to_owned(),
        delegation_key: delegation_public_key.to_owned(),
        discrimination: Discrimination::Test,
    }
}

/// The delegation made of a fresh key pair, the address obtained for it and
/// the key it delegates to.
pub fn create_new_delegation_address_for(
    delegation_public_key: &str,
    private_key: String,
    public_key: String,
    address: String,
) -> (delegation: Delegation)
    ensures
        delegation.private_key == private_key,
        delegation.public_key == public_key,
        delegation.address == address,
        delegation.delegation_key@ == delegation_public_key@,
{
    Delegation {
        private_key,
        public_key,
        address,
        delegation_key: delegation_public_key.to_owned(),
    }
}

/// The delegation to a delegation key that was made for the purpose:
/// `public_delegation_key` is the public half of that key.
pub fn create_new_delegation_address(
    public_delegation_key: String,
    private_key: String,
    public_key: String,
    address: String,
) -> (delegation: Delegation)
    ensures
        delegation.private_key == private_key,
        delegation.public_key == public_key,
        delegation.address == address,
        delegation.delegation_key@ == public_delegation_key@,
{
    create_new_delegation_address_for(public_delegation_key.as_str(), private_key, public_key, address)
}

} // verus!
