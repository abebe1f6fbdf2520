use vstd::prelude::*;
use snarkvm_dpc::network::testnet2::Testnet2;
use snarkvm_dpc::Network;

verus! {

/// The limits that a network sets on the programs it runs.
#[derive(Clone, Copy, Debug, PartialEq, Eq, Structural)]
pub struct NetworkProfile {
    /// How many transition functions one program may hold.
    pub max_transitions: u8,
    /// How many records the arguments of one transition may hold.
    pub max_input_records: usize,
    /// How many records the result of one transition may hold.
    pub max_output_records: usize,
}

/// Reads `NUM_TRANSITIONS` of snarkvm_dpc's `Testnet2`. Trusted: the
/// network defines it as two to the depth of its transaction tree, which
/// is five.
#[verifier::external_body]
fn testnet2_num_transitions() -> (n: u8)
    ensures
        n == 32,
{
    Testnet2::NUM_TRANSITIONS
}

/// Reads `NUM_INPUT_RECORDS` of snarkvm_dpc's `Testnet2`. Trusted: the
/// network defines it as two.
#[verifier::external_body]
fn testnet2_num_input_records() -> (n: usize)
    ensures
        n == 2,
{
    Testnet2::NUM_INPUT_RECORDS
}

/// Reads `NUM_OUTPUT_RECORDS` of snarkvm_dpc's `Testnet2`. Trusted: the
/// network defines it as two.
#[verifier::external_body]
fn testnet2_num_output_records() -> (n: usize)
    ensures
        n == 2,
{
    Testnet2::NUM_OUTPUT_RECORDS
}

impl NetworkProfile {
    /// The limits of the second test network.
    pub fn testnet2() -> (r: NetworkProfile)
        ensures
            r == (NetworkProfile {
                max_transitions: 32,
                max_input_records: 2,
                max_output_records: 2,
            }),
    {
        NetworkProfile {
            max_transitions: testnet2_num_transitions(),
            max_input_records: testnet2_num_input_records(),
            max_output_records: testnet2_num_output_records(),
        }
    }
}

} // verus!
