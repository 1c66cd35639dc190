//! PayTube's custom transaction format, tailored for SOL or SPL token
//! transfers, and its translation into the base ledger's instruction and
//! sanitized-transaction shapes.

use vstd::prelude::*;
use vstd::bytes::{
    lemma_auto_spec_u64_to_from_le_bytes, spec_u64_from_le_bytes, spec_u64_to_le_bytes,
};
use solana_sdk::instruction::{AccountMeta, Instruction as SolanaInstruction};
use solana_sdk::pubkey::Pubkey;
use solana_sdk::transaction::{
    SanitizedTransaction as SolanaSanitizedTransaction, Transaction as SolanaTransaction,
};
use std::collections::HashSet;
use crate::{Bytes32, InstrModel, MetaModel, PayTubeError, SolAccountMeta, SvmInstruction};

verus! {

/// Mathematical model of one transfer intent.
#[verifier::ext_equal]
pub ghost struct IntentModel {
    pub mint: Option<Seq<u8>>,
    pub from: Seq<u8>,
    pub to: Seq<u8>,
    pub amount: u64,
}

impl IntentModel {
    pub open spec fn wf(self) -> bool {
        &&& (self.mint matches Some(m) ==> m.len() == 32)
        &&& self.from.len() == 32
        &&& self.to.len() == 32
    }
}

/// A simple PayTube transaction. Transfers SPL tokens or SOL from one
/// account to another.
///
/// A `None` value for `mint` represents native SOL.
#[derive(Debug, Clone, PartialEq, Eq)]
pub struct PayTubeTransaction {
    pub mint: Option<Bytes32>,
    pub from: Bytes32,
    pub to: Bytes32,
    pub amount: u64,
}

impl View for PayTubeTransaction {
    type V = IntentModel;

    open spec fn view(&self) -> IntentModel {
        IntentModel {
            mint: match self.mint {
                Some(m) => Some(m@),
                None => None,
            },
            from: self.from@,
            to: self.to@,
            amount: self.amount,
        }
    }
}

impl PayTubeTransaction {
    pub open spec fn wf(&self) -> bool {
        self@.wf()
    }
}

/// The base ledger's native (system) program identity: 32 zero bytes.
pub open spec fn system_program_id() -> Seq<u8> {
    Seq::new(32, |i: int| 0u8)
}

/// The SPL token program identity.
pub open spec fn token_program_id() -> Seq<u8> {
    seq![
        6u8, 221u8, 246u8, 225u8, 215u8, 101u8, 161u8, 147u8, 217u8, 203u8, 225u8, 70u8, 206u8,
        235u8, 121u8, 172u8, 28u8, 180u8, 133u8, 237u8, 95u8, 91u8, 55u8, 145u8, 58u8, 140u8,
        245u8, 133u8, 126u8, 255u8, 0u8, 169u8,
    ]
}

/// Data payload of a native transfer: the system program's transfer variant
/// (2, as a little-endian u32) followed by the amount as a little-endian u64.
pub open spec fn native_transfer_data(amount: u64) -> Seq<u8> {
    seq![2u8, 0u8, 0u8, 0u8] + spec_u64_to_le_bytes(amount)
}

/// Data payload of an SPL token transfer: the token program's transfer tag
/// (byte 3) followed by the amount as a little-endian u64.
pub open spec fn token_transfer_data(amount: u64) -> Seq<u8> {
    seq![3u8] + spec_u64_to_le_bytes(amount)
}

/// What the associated-token-account derivation returns for (owner, mint).
pub uninterp spec fn ata_of(owner: Seq<u8>, mint: Seq<u8>) -> Seq<u8>;

/// The one instruction a transfer intent translates to. A native transfer
/// moves the amount from sender to recipient directly; a token transfer
/// moves it between the two derived token sub-accounts, authorized by the
/// sending owner.
pub open spec fn intent_instruction(t: IntentModel) -> InstrModel {
    match t.mint {
        None => InstrModel {
            program_id: system_program_id(),
            accounts: seq![
                MetaModel { pubkey: t.from, is_signer: true, is_writable: true },
                MetaModel { pubkey: t.to, is_signer: false, is_writable: true },
            ],
            data: native_transfer_data(t.amount),
        },
        Some(m) => InstrModel {
            program_id: token_program_id(),
            accounts: seq![
                MetaModel { pubkey: ata_of(t.from, m), is_signer: false, is_writable: true },
                MetaModel { pubkey: ata_of(t.to, m), is_signer: false, is_writable: true },
                MetaModel { pubkey: t.from, is_signer: true, is_writable: false },
            ],
            data: token_transfer_data(t.amount),
        },
    }
}

/// Relies on solana_sdk::system_instruction::transfer: it builds an
/// instruction invoking the system program (the all-zero identity) with the
/// funding account as writable signer, the recipient as writable, and the
/// transfer variant (2) plus the lamports, both little-endian, as data.
#[verifier::external_body]
fn native_transfer_instruction(from: &Bytes32, to: &Bytes32, amount: u64) -> (r: SvmInstruction)
    requires
        from.wf(),
        to.wf(),
    ensures
        r@ == intent_instruction(IntentModel { mint: None, from: from@, to: to@, amount }),
{
    let ix = solana_sdk::system_instruction::transfer(
        &Pubkey::new_from_array(from.bytes.as_slice().try_into().unwrap()),
        &Pubkey::new_from_array(to.bytes.as_slice().try_into().unwrap()),
        amount,
    );
    let accounts = ix.accounts.iter().map(|a| SolAccountMeta {
        pubkey: Bytes32 { bytes: a.pubkey.to_bytes().to_vec() },
        is_signer: a.is_signer,
        is_writable: a.is_writable,
    }).collect();
    let program_id = Bytes32 { bytes: ix.program_id.to_bytes().to_vec() };
    SvmInstruction { program_id, accounts, data: ix.data }
}

/// Relies on spl_token::instruction::transfer, called with spl_token's own
/// program identity so its program check always passes: it returns an
/// instruction on the token program with the source and destination
/// writable, the authority as readonly signer, and tag byte 3 plus the
/// little-endian amount as data.
#[verifier::external_body]
fn token_transfer_instruction(
    source: &Bytes32,
    destination: &Bytes32,
    authority: &Bytes32,
    amount: u64,
) -> (r: SvmInstruction)
    requires
        source.wf(),
        destination.wf(),
        authority.wf(),
    ensures
        r@.program_id == token_program_id(),
        r@.accounts == seq![
            MetaModel { pubkey: source@, is_signer: false, is_writable: true },
            MetaModel { pubkey: destination@, is_signer: false, is_writable: true },
            MetaModel { pubkey: authority@, is_signer: true, is_writable: false },
        ],
        r@.data == token_transfer_data(amount),
{
    let ix = spl_token::instruction::transfer(
        &spl_token::id(),
        &Pubkey::new_from_array(source.bytes.as_slice().try_into().unwrap()),
        &Pubkey::new_from_array(destination.bytes.as_slice().try_into().unwrap()),
        &Pubkey::new_from_array(authority.bytes.as_slice().try_into().unwrap()),
        &[],
        amount,
    ).unwrap();
    let accounts = ix.accounts.iter().map(|a| SolAccountMeta {
        pubkey: Bytes32 { bytes: a.pubkey.to_bytes().to_vec() },
        is_signer: a.is_signer,
        is_writable: a.is_writable,
    }).collect();
    let program_id = Bytes32 { bytes: ix.program_id.to_bytes().to_vec() };
    SvmInstruction { program_id, accounts, data: ix.data }
}

/// Relies on spl_associated_token_account::get_associated_token_address: the
/// token-holding sub-account is a pure function of the owner and mint
/// identities alone, always a 32-byte address.
#[verifier::external_body]
fn derive_token_account(owner: &Bytes32, mint: &Bytes32) -> (r: Bytes32)
    requires
        owner.wf(),
        mint.wf(),
    ensures
        r@ == ata_of(owner@, mint@),
        r@.len() == 32,
{
    let address = spl_associated_token_account::get_associated_token_address(
        &Pubkey::new_from_array(owner.bytes.as_slice().try_into().unwrap()),
        &Pubkey::new_from_array(mint.bytes.as_slice().try_into().unwrap()),
    );
    Bytes32 { bytes: address.to_bytes().to_vec() }
}

impl PayTubeTransaction {
    /// Translates this intent into exactly one base-ledger instruction,
    /// choosing the native path when no mint is named and the token path
    /// otherwise.
    pub fn to_instruction(&self) -> (r: Result<SvmInstruction, PayTubeError>)
        requires
            self.wf(),
        ensures
            r matches Ok(ix) && ix@ == intent_instruction(self@) && ix.wf(),
    {
        match &self.mint {
            None => {
                let ix = native_transfer_instruction(&self.from, &self.to, self.amount);
                proof {
                    lemma_auto_spec_u64_to_from_le_bytes();
                    assert(ix@ =~= intent_instruction(self@));
                    assert(ix@.wf());
                }
                Ok(ix)
            },
            Some(mint) => {
                let source = derive_token_account(&self.from, mint);
                let destination = derive_token_account(&self.to, mint);
                let ix = token_transfer_instruction(&source, &destination, &self.from, self.amount);
                proof {
                    lemma_auto_spec_u64_to_from_le_bytes();
                    assert(ix@ =~= intent_instruction(self@));
                    assert(ix@.wf());
                }
                Ok(ix)
            },
        }
    }
}

#[verifier::external_type_specification]
#[verifier::external_body]
pub struct ExSanitizedTransaction(SolanaSanitizedTransaction);

/// What a sanitized transaction carries, instruction by instruction: the
/// program identity, the account identities in positional order, and the
/// opaque data.
pub uninterp spec fn sanitized_instructions(t: SolanaSanitizedTransaction) -> Seq<
    (Seq<u8>, Seq<Seq<u8>>, Seq<u8>),
>;

/// The fee-paying identity of a sanitized transaction: its first account key.
pub uninterp spec fn sanitized_fee_payer(t: SolanaSanitizedTransaction) -> Seq<u8>;

/// The parts of an instruction that base-ledger message compilation carries
/// verbatim: program identity, account identities in order, and data.
pub open spec fn instr_core(m: InstrModel) -> (Seq<u8>, Seq<Seq<u8>>, Seq<u8>) {
    (m.program_id, m.accounts.map_values(|a: MetaModel| a.pubkey), m.data)
}

/// Relies on solana_sdk's Transaction::new_with_payer and
/// SanitizedTransaction::try_from_legacy_transaction with an empty
/// address-lookup set. With at most 253 account references the compiled key
/// list stays within the message's u8 index space, so key compilation
/// neither overflows nor truncates, and sanitization rejects exactly one
/// thing: a message whose invoked program is its own fee payer. Otherwise
/// the sanitized transaction funds the message with `payer` as its first
/// account key and carries exactly the given instruction, program, account
/// order and data preserved by message compilation.
#[verifier::external_body]
fn sanitize_instruction(ix: &SvmInstruction, payer: &Bytes32) -> (r: Result<
    SolanaSanitizedTransaction,
    PayTubeError,
>)
    requires
        ix.wf(),
        payer.wf(),
        ix@.accounts.len() <= 253,
    ensures
        r matches Ok(t) ==> sanitized_instructions(t) == seq![instr_core(ix@)]
            && sanitized_fee_payer(t) == payer@,
        r is Ok <==> payer@ != ix@.program_id,
        r matches Err(e) ==> e == PayTubeError::Validation,
{
    let accounts = ix.accounts.iter().map(|a| AccountMeta {
        pubkey: Pubkey::new_from_array(a.pubkey.bytes.as_slice().try_into().unwrap()),
        is_signer: a.is_signer,
        is_writable: a.is_writable,
    }).collect();
    let program_id = Pubkey::new_from_array(ix.program_id.bytes.as_slice().try_into().unwrap());
    let inner = SolanaInstruction { program_id, accounts, data: ix.data.clone() };
    let payer_key = Pubkey::new_from_array(payer.bytes.as_slice().try_into().unwrap());
    let tx = SolanaTransaction::new_with_payer(&[inner], Some(&payer_key));
    SolanaSanitizedTransaction::try_from_legacy_transaction(tx, &HashSet::new())
        .map_err(|_| PayTubeError::Validation)
}

/// The one degenerate intent the base ledger rejects: a sender identical to
/// the identity of the very program the transfer invokes, which sanitization
/// refuses because a program cannot be its own fee payer.
pub open spec fn intent_accepted(t: IntentModel) -> bool {
    t.from != intent_instruction(t).program_id
}

/// Creates a batch of Solana transactions, for the Solana SVM's transaction
/// processor, from a batch of PayTube transactions: one sanitized
/// transaction per intent, each funded by its own sender, output order equal
/// to input order. An element fails — alone, with a ValidationError — exactly
/// when its sender is the invoked program's own identity.
pub fn create_svm_transactions(paytube_transactions: &Vec<PayTubeTransaction>) -> (r: Vec<
    Result<SolanaSanitizedTransaction, PayTubeError>,
>)
    requires
        forall|i: int|
            0 <= i < paytube_transactions@.len() ==> (#[trigger] paytube_transactions@[i]).wf(),
    ensures
        r@.len() == paytube_transactions@.len(),
        forall|i: int|
            0 <= i < r@.len() ==> ((#[trigger] r@[i] matches Ok(t) ==> sanitized_instructions(t)
                == seq![instr_core(intent_instruction(paytube_transactions@[i]@))]
                && sanitized_fee_payer(t) == paytube_transactions@[i]@.from) && (r@[i] is Ok
                <==> intent_accepted(paytube_transactions@[i]@)) && (r@[i] matches Err(e)
                ==> e == PayTubeError::Validation)),
{
    let mut out: Vec<Result<SolanaSanitizedTransaction, PayTubeError>> = Vec::new();
    let mut i: usize = 0;
    while i < paytube_transactions.len()
        invariant
            i <= paytube_transactions@.len(),
            out@.len() == i as int,
            forall|k: int|
                0 <= k < paytube_transactions@.len() ==> (
                #[trigger] paytube_transactions@[k]).wf(),
            forall|k: int|
                0 <= k < i as int ==> ((#[trigger] out@[k] matches Ok(t)
                    ==> sanitized_instructions(t) == seq![
                    instr_core(intent_instruction(paytube_transactions@[k]@)),
                ] && sanitized_fee_payer(t) == paytube_transactions@[k]@.from) && (out@[k] is Ok
                <==> intent_accepted(paytube_transactions@[k]@)) && (out@[k] matches Err(e)
                ==> e == PayTubeError::Validation)),
        decreases paytube_transactions@.len() - i,
    {
        let tx = &paytube_transactions[i];
        let ix = tx.to_instruction().unwrap();
        proof {
            assert(ix@.accounts.len() <= 3);
        }
        out.push(sanitize_instruction(&ix, &tx.from));
        i = i + 1;
    }
    out
}

/// Law: a native transfer instruction touches exactly two accounts — the
/// sender as writable signer and the recipient as writable, in that order —
/// and its opaque data decodes back to the intent's amount.
pub proof fn lemma_native_translation(t: IntentModel)
    requires
        t.wf(),
        t.mint is None,
    ensures
        intent_instruction(t).program_id == system_program_id(),
        intent_instruction(t).accounts.len() == 2,
        intent_instruction(t).accounts[0].pubkey == t.from,
        intent_instruction(t).accounts[0].is_signer,
        intent_instruction(t).accounts[0].is_writable,
        intent_instruction(t).accounts[1].pubkey == t.to,
        !intent_instruction(t).accounts[1].is_signer,
        intent_instruction(t).accounts[1].is_writable,
        spec_u64_from_le_bytes(intent_instruction(t).data.subrange(4, 12)) == t.amount,
{
    lemma_auto_spec_u64_to_from_le_bytes();
    assert(intent_instruction(t).data.subrange(4, 12) =~= spec_u64_to_le_bytes(t.amount));
}

/// Law: a token transfer instruction references exactly the deterministic
/// derivations of the sender's and recipient's token sub-accounts for the
/// intent's mint — re-deriving from the same owner and mint always yields
/// the same reference — with the sender as the authorizing signer, and its
/// opaque data decodes back to the intent's amount.
pub proof fn lemma_token_translation(t: IntentModel, m: Seq<u8>)
    requires
        t.wf(),
        t.mint == Some(m),
    ensures
        intent_instruction(t).program_id == token_program_id(),
        intent_instruction(t).accounts.len() == 3,
        intent_instruction(t).accounts[0].pubkey == ata_of(t.from, m),
        intent_instruction(t).accounts[1].pubkey == ata_of(t.to, m),
        intent_instruction(t).accounts[2].pubkey == t.from,
        intent_instruction(t).accounts[2].is_signer,
        spec_u64_from_le_bytes(intent_instruction(t).data.subrange(1, 9)) == t.amount,
{
    lemma_auto_spec_u64_to_from_le_bytes();
    assert(intent_instruction(t).data.subrange(1, 9) =~= spec_u64_to_le_bytes(t.amount));
}

} // verus!
