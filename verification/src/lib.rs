//! PayTube settlement core.
//!
//! Translates transfer intents into the base ledger's (SVM) instruction and
//! transaction shapes, and encodes settled batches into a canonical,
//! compressed settlement envelope for publication on a secondary ledger
//! (WeaveVM) as an immutable audit record.

pub mod transaction;
pub mod utils;
pub mod wvm;

use vstd::prelude::*;

verus! {

/// The error kinds surfaced by this crate, one per failing stage.
#[derive(Debug, Clone, Copy, PartialEq, Eq, Structural)]
pub enum PayTubeError {
    /// A transfer intent could not be turned into an instruction.
    Construction,
    /// A built transaction was rejected during sanitization.
    Validation,
    /// The envelope codec rejected its input: a malformed envelope, or a
    /// payload that does not decode.
    Encoding,
    /// Signing key material is missing or malformed.
    Credential,
    /// The secondary ledger did not accept or confirm the submission.
    Submission,
}

/// A 32-byte value: an account identity or a block hash.
#[derive(Debug, Clone, PartialEq, Eq)]
pub struct Bytes32 {
    pub bytes: Vec<u8>,
}

impl View for Bytes32 {
    type V = Seq<u8>;

    open spec fn view(&self) -> Seq<u8> {
        self.bytes@
    }
}

impl Bytes32 {
    pub open spec fn wf(&self) -> bool {
        self@.len() == 32
    }

    /// Wraps exactly 32 bytes; anything else is rejected.
    pub fn new(bytes: Vec<u8>) -> (r: Result<Bytes32, PayTubeError>)
        ensures
            bytes@.len() == 32 ==> (r matches Ok(b) && b@ == bytes@),
            bytes@.len() != 32 ==> r is Err,
    {
        if bytes.len() == 32 {
            Ok(Bytes32 { bytes })
        } else {
            Err(PayTubeError::Construction)
        }
    }

}

/// Mathematical model of one account reference.
#[verifier::ext_equal]
pub ghost struct MetaModel {
    pub pubkey: Seq<u8>,
    pub is_signer: bool,
    pub is_writable: bool,
}

impl MetaModel {
    pub open spec fn wf(self) -> bool {
        self.pubkey.len() == 32
    }
}

/// Mathematical model of one instruction.
#[verifier::ext_equal]
pub ghost struct InstrModel {
    pub program_id: Seq<u8>,
    pub accounts: Seq<MetaModel>,
    pub data: Seq<u8>,
}

impl InstrModel {
    pub open spec fn wf(self) -> bool {
        &&& self.program_id.len() == 32
        &&& forall|i: int| 0 <= i < self.accounts.len() ==> (#[trigger] self.accounts[i]).wf()
        &&& self.accounts.len() < 0x1_0000_0000
        &&& self.data.len() < 0x1_0000_0000
    }
}

/// Mathematical model of a settlement envelope.
#[verifier::ext_equal]
pub ghost struct EnvelopeModel {
    pub instructions: Seq<InstrModel>,
    pub payer: Seq<u8>,
    pub svm_blockhash: Seq<u8>,
}

impl EnvelopeModel {
    pub open spec fn wf(self) -> bool {
        &&& forall|i: int| 0 <= i < self.instructions.len() ==> (#[trigger] self.instructions[i]).wf()
        &&& self.instructions.len() < 0x1_0000_0000
        &&& self.payer.len() == 32
        &&& self.svm_blockhash.len() == 32
    }
}

/// The models of a sequence of account references.
pub open spec fn meta_views(s: Seq<SolAccountMeta>) -> Seq<MetaModel> {
    s.map_values(|a: SolAccountMeta| a@)
}

/// The models of a sequence of instructions.
pub open spec fn instr_views(s: Seq<SvmInstruction>) -> Seq<InstrModel> {
    s.map_values(|x: SvmInstruction| x@)
}

/// A normalized account reference: identity plus signer/writable flags.
#[derive(Debug, Clone, PartialEq, Eq)]
pub struct SolAccountMeta {
    pub pubkey: Bytes32,
    pub is_signer: bool,
    pub is_writable: bool,
}

impl View for SolAccountMeta {
    type V = MetaModel;

    open spec fn view(&self) -> MetaModel {
        MetaModel { pubkey: self.pubkey@, is_signer: self.is_signer, is_writable: self.is_writable }
    }
}

impl SolAccountMeta {
    pub open spec fn wf(&self) -> bool {
        self@.wf()
    }
}

/// One base-ledger instruction: invoked program, ordered account references,
/// and an opaque data payload.
#[derive(Debug, Clone, PartialEq, Eq)]
pub struct SvmInstruction {
    pub program_id: Bytes32,
    pub accounts: Vec<SolAccountMeta>,
    pub data: Vec<u8>,
}

impl View for SvmInstruction {
    type V = InstrModel;

    open spec fn view(&self) -> InstrModel {
        InstrModel {
            program_id: self.program_id@,
            accounts: meta_views(self.accounts@),
            data: self.data@,
        }
    }
}

impl SvmInstruction {
    pub open spec fn wf(&self) -> bool {
        self@.wf()
    }
}

} // verus!
