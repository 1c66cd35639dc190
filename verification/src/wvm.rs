//! The settlement envelope codec.
//!
//! A settled batch (instructions, payer, recent block hash) is serialized
//! into a fixed, versionless, little-endian canonical byte form, then
//! compressed with Brotli for compact storage on the secondary ledger.
//! Decoding is the exact inverse, so the envelope is a verifiable audit
//! record: the canonical layer round-trips field for field.

use vstd::prelude::*;
use vstd::bytes::{
    lemma_auto_spec_u32_to_from_le_bytes, spec_u32_from_le_bytes, spec_u32_to_le_bytes,
    u32_from_le_bytes, u32_to_le_bytes,
};
use vstd::slice::{slice_subrange, slice_to_vec};
use crate::{
    instr_views, meta_views, Bytes32, EnvelopeModel, InstrModel, MetaModel, PayTubeError,
    SolAccountMeta, SvmInstruction,
};

verus! {

/// The canonical encoding of a flag: one byte, 1 for true and 0 for false.
pub open spec fn bool_byte(b: bool) -> u8 {
    if b {
        1u8
    } else {
        0u8
    }
}

/// Canonical bytes of one account reference: 32-byte identity, then the
/// signer and writable flags, one byte each.
pub open spec fn meta_bytes(m: MetaModel) -> Seq<u8> {
    m.pubkey + seq![bool_byte(m.is_signer), bool_byte(m.is_writable)]
}

/// Canonical bytes of a sequence of account references, in order.
pub open spec fn metas_bytes(s: Seq<MetaModel>) -> Seq<u8>
    decreases s.len(),
{
    if s.len() == 0 {
        Seq::empty()
    } else {
        meta_bytes(s[0]) + metas_bytes(s.drop_first())
    }
}

/// Canonical bytes of one instruction: 32-byte program identity, account
/// count as little-endian u32, the account references, data length as
/// little-endian u32, then the data bytes.
pub open spec fn instr_bytes(m: InstrModel) -> Seq<u8> {
    m.program_id + spec_u32_to_le_bytes(m.accounts.len() as u32) + metas_bytes(m.accounts)
        + spec_u32_to_le_bytes(m.data.len() as u32) + m.data
}

/// Canonical bytes of a sequence of instructions, in order.
pub open spec fn instrs_bytes(s: Seq<InstrModel>) -> Seq<u8>
    decreases s.len(),
{
    if s.len() == 0 {
        Seq::empty()
    } else {
        instr_bytes(s[0]) + instrs_bytes(s.drop_first())
    }
}

/// Canonical bytes of a whole envelope: instruction count as little-endian
/// u32, the instructions, the 32-byte payer, then the 32-byte block hash.
pub open spec fn envelope_bytes(e: EnvelopeModel) -> Seq<u8> {
    spec_u32_to_le_bytes(e.instructions.len() as u32) + instrs_bytes(e.instructions) + e.payer
        + e.svm_blockhash
}

/// `p` occurs in `b` starting at `pos`.
pub open spec fn prefix_at(b: Seq<u8>, pos: int, p: Seq<u8>) -> bool {
    &&& 0 <= pos
    &&& pos + p.len() <= b.len()
    &&& b.subrange(pos, pos + p.len()) == p
}

/// Every account reference in the sequence is well formed.
pub open spec fn metas_wf(s: Seq<MetaModel>) -> bool {
    forall|i: int| 0 <= i < s.len() ==> (#[trigger] s[i]).wf()
}

proof fn lemma_metas_bytes_app(a: Seq<MetaModel>, b: Seq<MetaModel>)
    ensures
        metas_bytes(a + b) == metas_bytes(a) + metas_bytes(b),
    decreases a.len(),
{
    if a.len() == 0 {
        assert(a + b =~= b);
        assert(metas_bytes(a) + metas_bytes(b) =~= metas_bytes(b));
    } else {
        assert((a + b).drop_first() =~= a.drop_first() + b);
        lemma_metas_bytes_app(a.drop_first(), b);
        assert(metas_bytes(a + b) =~= metas_bytes(a) + metas_bytes(b));
    }
}

proof fn lemma_metas_bytes_len(s: Seq<MetaModel>)
    requires
        metas_wf(s),
    ensures
        metas_bytes(s).len() == 34 * s.len(),
    decreases s.len(),
{
    if s.len() > 0 {
        lemma_metas_bytes_len(s.drop_first());
    }
}

proof fn lemma_metas_take_step(s: Seq<MetaModel>, i: int)
    requires
        0 <= i < s.len(),
    ensures
        metas_bytes(s.take(i + 1)) == metas_bytes(s.take(i)) + meta_bytes(s[i]),
{
    assert(s.take(i + 1) =~= s.take(i) + seq![s[i]]);
    lemma_metas_bytes_app(s.take(i), seq![s[i]]);
    assert(seq![s[i]].drop_first() =~= Seq::<MetaModel>::empty());
    assert(metas_bytes(Seq::<MetaModel>::empty()) =~= Seq::<u8>::empty());
    assert(metas_bytes(seq![s[i]]) =~= meta_bytes(s[i]));
}

proof fn lemma_instrs_bytes_app(a: Seq<InstrModel>, b: Seq<InstrModel>)
    ensures
        instrs_bytes(a + b) == instrs_bytes(a) + instrs_bytes(b),
    decreases a.len(),
{
    if a.len() == 0 {
        assert(a + b =~= b);
        assert(instrs_bytes(a) + instrs_bytes(b) =~= instrs_bytes(b));
    } else {
        assert((a + b).drop_first() =~= a.drop_first() + b);
        lemma_instrs_bytes_app(a.drop_first(), b);
        assert(instrs_bytes(a + b) =~= instrs_bytes(a) + instrs_bytes(b));
    }
}

proof fn lemma_instrs_take_step(s: Seq<InstrModel>, i: int)
    requires
        0 <= i < s.len(),
    ensures
        instrs_bytes(s.take(i + 1)) == instrs_bytes(s.take(i)) + instr_bytes(s[i]),
{
    assert(s.take(i + 1) =~= s.take(i) + seq![s[i]]);
    lemma_instrs_bytes_app(s.take(i), seq![s[i]]);
    assert(seq![s[i]].drop_first() =~= Seq::<InstrModel>::empty());
    assert(instrs_bytes(Seq::<InstrModel>::empty()) =~= Seq::<u8>::empty());
    assert(instrs_bytes(seq![s[i]]) =~= instr_bytes(s[i]));
}

proof fn lemma_metas_bytes_index(s: Seq<MetaModel>, k: int)
    requires
        metas_wf(s),
        0 <= k < s.len(),
    ensures
        metas_bytes(s).len() == 34 * s.len(),
        metas_bytes(s).subrange(34 * k, 34 * k + 34) == meta_bytes(s[k]),
{
    lemma_metas_bytes_len(s);
    assert(s =~= s.take(k) + seq![s[k]] + s.skip(k + 1));
    lemma_metas_bytes_app(s.take(k) + seq![s[k]], s.skip(k + 1));
    lemma_metas_bytes_app(s.take(k), seq![s[k]]);
    assert(seq![s[k]].drop_first() =~= Seq::<MetaModel>::empty());
    assert(metas_bytes(Seq::<MetaModel>::empty()) =~= Seq::<u8>::empty());
    assert(metas_bytes(seq![s[k]]) =~= meta_bytes(s[k]));
    assert(metas_wf(s.take(k))) by {
        assert forall|j: int| 0 <= j < k implies (#[trigger] s.take(k)[j]).wf() by {
            assert(s.take(k)[j] == s[j]);
        }
    }
    lemma_metas_bytes_len(s.take(k));
    assert(meta_bytes(s[k]).len() == 34);
    assert(metas_bytes(s).subrange(34 * k, 34 * k + 34) =~= meta_bytes(s[k]));
}

/// A slice of an occurrence of `p` in `b` is the matching slice of `p`.
proof fn lemma_prefix_sub(b: Seq<u8>, pos: int, p: Seq<u8>, i: int, j: int)
    requires
        prefix_at(b, pos, p),
        0 <= i <= j <= p.len(),
    ensures
        b.subrange(pos + i, pos + j) == p.subrange(i, j),
{
    assert forall|k: int| 0 <= k < j - i implies b.subrange(pos + i, pos + j)[k] == p.subrange(
        i,
        j,
    )[k] by {
        assert(b.subrange(pos, pos + p.len() as int)[i + k] == b[pos + i + k]);
    }
    assert(b.subrange(pos + i, pos + j) =~= p.subrange(i, j));
}

/// How the canonical bytes of an instruction, found at `pos` in `b`, break
/// into the instruction's parts.
proof fn lemma_instr_bytes_parts(b: Seq<u8>, pos: int, m: InstrModel)
    requires
        m.wf(),
        prefix_at(b, pos, instr_bytes(m)),
    ensures
        instr_bytes(m).len() == 40 + 34 * m.accounts.len() + m.data.len(),
        b.subrange(pos, pos + 32) == m.program_id,
        b.subrange(pos + 32, pos + 36) == spec_u32_to_le_bytes(m.accounts.len() as u32),
        forall|k: int|
            0 <= k < m.accounts.len() ==> prefix_at(
                b,
                pos + 36 + 34 * k,
                #[trigger] meta_bytes(m.accounts[k]),
            ),
        b.subrange(pos + 36 + 34 * m.accounts.len(), pos + 40 + 34 * m.accounts.len())
            == spec_u32_to_le_bytes(m.data.len() as u32),
        b.subrange(
            pos + 40 + 34 * m.accounts.len(),
            pos + 40 + 34 * m.accounts.len() + m.data.len(),
        ) == m.data,
{
    lemma_auto_spec_u32_to_from_le_bytes();
    assert(metas_wf(m.accounts));
    lemma_metas_bytes_len(m.accounts);
    let c1 = spec_u32_to_le_bytes(m.accounts.len() as u32);
    let mb = metas_bytes(m.accounts);
    let c2 = spec_u32_to_le_bytes(m.data.len() as u32);
    let a = m.accounts.len() as int;
    let d = m.data.len() as int;
    let ib = instr_bytes(m);
    assert(c1.len() == 4 && c2.len() == 4 && mb.len() == 34 * a);
    assert(ib.len() == 40 + 34 * a + d);
    assert(ib.subrange(0, 32) =~= m.program_id);
    assert(ib.subrange(32, 36) =~= c1);
    assert(ib.subrange(36, 36 + 34 * a) =~= mb);
    assert(ib.subrange(36 + 34 * a, 40 + 34 * a) =~= c2);
    assert(ib.subrange(40 + 34 * a, 40 + 34 * a + d) =~= m.data);
    lemma_prefix_sub(b, pos, ib, 0, 32);
    lemma_prefix_sub(b, pos, ib, 32, 36);
    lemma_prefix_sub(b, pos, ib, 36, 36 + 34 * a);
    lemma_prefix_sub(b, pos, ib, 36 + 34 * a, 40 + 34 * a);
    lemma_prefix_sub(b, pos, ib, 40 + 34 * a, 40 + 34 * a + d);
    assert forall|k: int| 0 <= k < m.accounts.len() implies prefix_at(
        b,
        pos + 36 + 34 * k,
        #[trigger] meta_bytes(m.accounts[k]),
    ) by {
        lemma_metas_bytes_index(m.accounts, k);
        lemma_prefix_sub(b, pos, ib, 36 + 34 * k, 36 + 34 * k + 34);
        assert(ib.subrange(36 + 34 * k, 36 + 34 * k + 34) =~= mb.subrange(34 * k, 34 * k + 34));
    }
}

/// Appends all of `src` to `out`.
fn append_bytes(out: &mut Vec<u8>, src: &Vec<u8>)
    ensures
        final(out)@ == old(out)@ + src@,
{
    let mut i: usize = 0;
    while i < src.len()
        invariant
            i <= src@.len(),
            out@ == old(out)@ + src@.take(i as int),
        decreases src@.len() - i,
    {
        out.push(src[i]);
        proof {
            assert(old(out)@ + src@.take(i + 1) =~= (old(out)@ + src@.take(i as int)).push(
                src@[i as int],
            ));
        }
        i = i + 1;
    }
    proof {
        assert(src@.take(src@.len() as int) =~= src@);
    }
}

/// Appends the canonical bytes of one account reference.
fn encode_meta(out: &mut Vec<u8>, m: &SolAccountMeta)
    requires
        m.wf(),
    ensures
        final(out)@ == old(out)@ + meta_bytes(m@),
{
    append_bytes(out, &m.pubkey.bytes);
    out.push(if m.is_signer { 1 } else { 0 });
    out.push(if m.is_writable { 1 } else { 0 });
    proof {
        assert(out@ =~= old(out)@ + meta_bytes(m@));
    }
}

/// Appends the canonical bytes of one instruction.
fn encode_instr(out: &mut Vec<u8>, ix: &SvmInstruction)
    requires
        ix.wf(),
    ensures
        final(out)@ == old(out)@ + instr_bytes(ix@),
{
    append_bytes(out, &ix.program_id.bytes);
    let count = u32_to_le_bytes(ix.accounts.len() as u32);
    append_bytes(out, &count);
    let ghost base = out@;
    let mut i: usize = 0;
    while i < ix.accounts.len()
        invariant
            i <= ix.accounts@.len(),
            ix.wf(),
            out@ == base + metas_bytes(meta_views(ix.accounts@).take(i as int)),
        decreases ix.accounts@.len() - i,
    {
        proof {
            assert(meta_views(ix.accounts@)[i as int] == ix.accounts@[i as int]@);
            assert(ix@.accounts[i as int].wf());
        }
        encode_meta(out, &ix.accounts[i]);
        proof {
            lemma_metas_take_step(meta_views(ix.accounts@), i as int);
        }
        i = i + 1;
    }
    proof {
        assert(meta_views(ix.accounts@).take(ix.accounts@.len() as int) =~= meta_views(
            ix.accounts@,
        ));
    }
    let dlen = u32_to_le_bytes(ix.data.len() as u32);
    append_bytes(out, &dlen);
    append_bytes(out, &ix.data);
    proof {
        assert(ix@.accounts.len() == ix.accounts@.len());
        assert(ix@.data.len() == ix.data@.len());
        assert(out@ =~= old(out)@ + instr_bytes(ix@));
    }
}

/// Reads one canonical account reference at `pos`. Accepts exactly the
/// canonical images: any well-formed reference encoded at `pos` is recovered,
/// and whatever is accepted re-encodes to the bytes read.
fn parse_meta(bytes: &Vec<u8>, pos: usize) -> (r: Result<(SolAccountMeta, usize), PayTubeError>)
    requires
        pos <= bytes@.len(),
    ensures
        r matches Ok(p) ==> ({
            &&& p.0.wf()
            &&& p.1 == pos + 34
            &&& pos + 34 <= bytes@.len()
            &&& bytes@.subrange(pos as int, pos as int + 34) == meta_bytes(p.0@)
        }),
        forall|m: MetaModel|
            m.wf() && prefix_at(bytes@, pos as int, #[trigger] meta_bytes(m)) ==> (r matches Ok(p)
                && p.0@ == m),
{
    if bytes.len() - pos < 34 {
        proof {
            assert forall|m: MetaModel|
                m.wf() && prefix_at(bytes@, pos as int, #[trigger] meta_bytes(m)) implies false by {
                assert(meta_bytes(m).len() == 34);
            }
        }
        return Err(PayTubeError::Encoding);
    }
    let pk = slice_to_vec(slice_subrange(bytes.as_slice(), pos, pos + 32));
    let sb = bytes[pos + 32];
    let wb = bytes[pos + 33];
    proof {
        assert forall|m: MetaModel|
            m.wf() && prefix_at(bytes@, pos as int, #[trigger] meta_bytes(m)) implies ({
            &&& m.pubkey == pk@
            &&& bool_byte(m.is_signer) == sb
            &&& bool_byte(m.is_writable) == wb
        }) by {
            lemma_prefix_sub(bytes@, pos as int, meta_bytes(m), 0, 32);
            assert(meta_bytes(m).subrange(0, 32) =~= m.pubkey);
            assert(bytes@.subrange(pos as int, pos as int + meta_bytes(m).len() as int)[32] == sb);
            assert(bytes@.subrange(pos as int, pos as int + meta_bytes(m).len() as int)[33] == wb);
        }
    }
    if sb > 1 || wb > 1 {
        return Err(PayTubeError::Encoding);
    }
    let meta = SolAccountMeta {
        pubkey: Bytes32 { bytes: pk },
        is_signer: sb == 1,
        is_writable: wb == 1,
    };
    proof {
        assert(bytes@.subrange(pos as int, pos as int + 34) =~= meta_bytes(meta@));
        assert forall|m: MetaModel|
            m.wf() && prefix_at(bytes@, pos as int, #[trigger] meta_bytes(m)) implies meta@
            == m by {
            assert(meta@ =~= m);
        }
    }
    Ok((meta, pos + 34))
}

/// Reads one canonical instruction at `pos`: program identity, account
/// references, then the data payload, each length-prefixed as encoded.
fn parse_instr(bytes: &Vec<u8>, pos: usize) -> (r: Result<(SvmInstruction, usize), PayTubeError>)
    requires
        pos <= bytes@.len(),
    ensures
        r matches Ok(p) ==> ({
            &&& p.0.wf()
            &&& pos <= p.1 <= bytes@.len()
            &&& bytes@.subrange(pos as int, p.1 as int) == instr_bytes(p.0@)
        }),
        forall|m: InstrModel|
            m.wf() && prefix_at(bytes@, pos as int, #[trigger] instr_bytes(m)) ==> (r matches Ok(p)
                && p.0@ == m && p.1 == pos + instr_bytes(m).len()),
{
    proof {
        lemma_auto_spec_u32_to_from_le_bytes();
        assert forall|m: InstrModel|
            m.wf() && prefix_at(bytes@, pos as int, #[trigger] instr_bytes(m)) implies ({
            &&& instr_bytes(m).len() == 40 + 34 * m.accounts.len() + m.data.len()
            &&& pos + 36 <= bytes@.len()
        }) by {
            lemma_instr_bytes_parts(bytes@, pos as int, m);
        }
    }
    if bytes.len() - pos < 36 {
        return Err(PayTubeError::Encoding);
    }
    let prog = slice_to_vec(slice_subrange(bytes.as_slice(), pos, pos + 32));
    let n = u32_from_le_bytes(slice_subrange(bytes.as_slice(), pos + 32, pos + 36));
    proof {
        assert forall|m: InstrModel|
            m.wf() && prefix_at(bytes@, pos as int, #[trigger] instr_bytes(m)) implies ({
            &&& m.program_id == prog@
            &&& m.accounts.len() == n
        }) by {
            lemma_instr_bytes_parts(bytes@, pos as int, m);
            assert(n == spec_u32_from_le_bytes(spec_u32_to_le_bytes(m.accounts.len() as u32)));
        }
    }
    let mut accs: Vec<SolAccountMeta> = Vec::new();
    let mut cur: usize = pos + 36;
    let mut i: u32 = 0;
    while i < n
        invariant
            pos + 36 <= bytes@.len(),
            i <= n,
            cur as int == pos as int + 36 + 34 * (i as int),
            cur <= bytes@.len(),
            accs@.len() == i as int,
            metas_wf(meta_views(accs@)),
            bytes@.subrange(pos as int + 36, cur as int) == metas_bytes(meta_views(accs@)),
            forall|m: InstrModel|
                m.wf() && prefix_at(bytes@, pos as int, #[trigger] instr_bytes(m))
                    ==> m.accounts.len() == n && meta_views(accs@) == m.accounts.take(i as int),
        decreases n - i,
    {
        proof {
            assert forall|m: InstrModel|
                m.wf() && prefix_at(bytes@, pos as int, #[trigger] instr_bytes(m)) implies ({
                &&& (#[trigger] m.accounts[i as int]).wf()
                &&& prefix_at(bytes@, cur as int, meta_bytes(m.accounts[i as int]))
            }) by {
                lemma_instr_bytes_parts(bytes@, pos as int, m);
            }
        }
        let step = parse_meta(bytes, cur);
        match step {
            Err(e) => {
                proof {
                    assert forall|m: InstrModel|
                        m.wf() && prefix_at(bytes@, pos as int, #[trigger] instr_bytes(m)) implies
                        false by {
                        assert(m.accounts[i as int].wf());
                        assert(prefix_at(bytes@, cur as int, meta_bytes(m.accounts[i as int])));
                    }
                }
                return Err(e);
            },
            Ok((meta, next)) => {
                proof {
                    let vs = meta_views(accs@);
                    assert(meta_views(accs@.push(meta)) =~= vs.push(meta@));
                    lemma_metas_bytes_app(vs, seq![meta@]);
                    assert(vs.push(meta@) =~= vs + seq![meta@]);
                    assert(seq![meta@].drop_first() =~= Seq::<MetaModel>::empty());
                    assert(metas_bytes(Seq::<MetaModel>::empty()) =~= Seq::<u8>::empty());
                    assert(metas_bytes(seq![meta@]) =~= meta_bytes(meta@));
                    assert(bytes@.subrange(pos as int + 36, next as int) =~= bytes@.subrange(
                        pos as int + 36,
                        cur as int,
                    ) + bytes@.subrange(cur as int, cur as int + 34));
                    assert forall|m: InstrModel|
                        m.wf() && prefix_at(bytes@, pos as int, #[trigger] instr_bytes(m)) implies
                        meta_views(accs@.push(meta)) == m.accounts.take(i as int + 1) by {
                        assert(meta@ == m.accounts[i as int]);
                        assert(m.accounts.take(i as int + 1) =~= m.accounts.take(i as int).push(
                            m.accounts[i as int],
                        ));
                    }
                }
                accs.push(meta);
                cur = next;
                i = i + 1;
            },
        }
    }
    proof {
        assert forall|m: InstrModel|
            m.wf() && prefix_at(bytes@, pos as int, #[trigger] instr_bytes(m)) implies ({
            &&& meta_views(accs@) == m.accounts
            &&& cur + 4 <= bytes@.len()
            &&& m.data.len() == spec_u32_from_le_bytes(
                bytes@.subrange(cur as int, cur as int + 4),
            ) as int
        }) by {
            assert(m.accounts.take(n as int) =~= m.accounts);
            lemma_instr_bytes_parts(bytes@, pos as int, m);
            assert(34 * (n as int) == 34 * m.accounts.len());
            assert(spec_u32_from_le_bytes(spec_u32_to_le_bytes(m.data.len() as u32)) == m.data.len()
                as u32);
        }
    }
    if bytes.len() - cur < 4 {
        return Err(PayTubeError::Encoding);
    }
    let dlen = u32_from_le_bytes(slice_subrange(bytes.as_slice(), cur, cur + 4));
    let dstart = cur + 4;
    if bytes.len() - dstart < dlen as usize {
        proof {
            assert forall|m: InstrModel|
                m.wf() && prefix_at(bytes@, pos as int, #[trigger] instr_bytes(m)) implies false by {
                lemma_instr_bytes_parts(bytes@, pos as int, m);
            }
        }
        return Err(PayTubeError::Encoding);
    }
    let dend = dstart + dlen as usize;
    let data = slice_to_vec(slice_subrange(bytes.as_slice(), dstart, dend));
    let ix = SvmInstruction { program_id: Bytes32 { bytes: prog }, accounts: accs, data };
    proof {
        lemma_auto_spec_u32_to_from_le_bytes();
        assert(ix@.accounts == meta_views(ix.accounts@));
        assert(ix@.accounts.len() == n as int);
        assert(ix@.data.len() == dlen as int);
        assert(ix@.wf());
        assert(bytes@.subrange(pos as int, dend as int) =~= bytes@.subrange(pos as int, pos as int
            + 32) + bytes@.subrange(pos as int + 32, pos as int + 36) + bytes@.subrange(
            pos as int + 36,
            cur as int,
        ) + bytes@.subrange(cur as int, cur as int + 4) + bytes@.subrange(
            cur as int + 4,
            dend as int,
        ));
        assert(bytes@.subrange(pos as int + 32, pos as int + 36) == spec_u32_to_le_bytes(
            ix@.accounts.len() as u32,
        )) by {
            assert(spec_u32_to_le_bytes(spec_u32_from_le_bytes(bytes@.subrange(pos as int + 32, pos
                as int + 36))) == bytes@.subrange(pos as int + 32, pos as int + 36));
        }
        assert(bytes@.subrange(cur as int, cur as int + 4) == spec_u32_to_le_bytes(
            ix@.data.len() as u32,
        )) by {
            assert(spec_u32_to_le_bytes(spec_u32_from_le_bytes(bytes@.subrange(cur as int, cur
                as int + 4))) == bytes@.subrange(cur as int, cur as int + 4));
        }
        assert(bytes@.subrange(pos as int, dend as int) == instr_bytes(ix@));
        assert forall|m: InstrModel|
            m.wf() && prefix_at(bytes@, pos as int, #[trigger] instr_bytes(m)) implies ix@ == m
            && dend == pos + instr_bytes(m).len() by {
            lemma_instr_bytes_parts(bytes@, pos as int, m);
            assert(ix@ =~= m);
        }
    }
    Ok((ix, dend))
}

/// How the canonical bytes of an envelope break into its parts.
proof fn lemma_envelope_bytes_parts(b: Seq<u8>, e: EnvelopeModel)
    requires
        e.wf(),
        envelope_bytes(e) == b,
    ensures
        b.len() == 4 + instrs_bytes(e.instructions).len() + 64,
        b.subrange(0, 4) == spec_u32_to_le_bytes(e.instructions.len() as u32),
        b.subrange(4, 4 + instrs_bytes(e.instructions).len() as int) == instrs_bytes(
            e.instructions,
        ),
        b.subrange(b.len() - 64, b.len() - 32) == e.payer,
        b.subrange(b.len() - 32, b.len() as int) == e.svm_blockhash,
{
    lemma_auto_spec_u32_to_from_le_bytes();
    let eb = envelope_bytes(e);
    let il = instrs_bytes(e.instructions).len() as int;
    assert(spec_u32_to_le_bytes(e.instructions.len() as u32).len() == 4);
    assert(prefix_at(b, 0, eb)) by {
        assert(b.subrange(0, b.len() as int) =~= b);
    }
    assert(eb.subrange(0, 4) =~= spec_u32_to_le_bytes(e.instructions.len() as u32));
    assert(eb.subrange(4, 4 + il) =~= instrs_bytes(e.instructions));
    assert(eb.subrange(4 + il, 36 + il) =~= e.payer);
    assert(eb.subrange(36 + il, 68 + il) =~= e.svm_blockhash);
    lemma_prefix_sub(b, 0, eb, 0, 4);
    lemma_prefix_sub(b, 0, eb, 4, 4 + il);
    lemma_prefix_sub(b, 0, eb, 4 + il, 36 + il);
    lemma_prefix_sub(b, 0, eb, 36 + il, 68 + il);
}

/// Where the canonical bytes of instruction `i` start inside the canonical
/// bytes of an envelope.
proof fn lemma_envelope_instr_at(b: Seq<u8>, e: EnvelopeModel, i: int)
    requires
        e.wf(),
        envelope_bytes(e) == b,
        0 <= i < e.instructions.len(),
    ensures
        prefix_at(
            b,
            4 + instrs_bytes(e.instructions.take(i)).len() as int,
            instr_bytes(e.instructions[i]),
        ),
{
    let s = e.instructions;
    assert(s =~= s.take(i) + seq![s[i]] + s.skip(i + 1));
    lemma_instrs_bytes_app(s.take(i) + seq![s[i]], s.skip(i + 1));
    lemma_instrs_bytes_app(s.take(i), seq![s[i]]);
    assert(seq![s[i]].drop_first() =~= Seq::<InstrModel>::empty());
    assert(instrs_bytes(Seq::<InstrModel>::empty()) =~= Seq::<u8>::empty());
    assert(instrs_bytes(seq![s[i]]) =~= instr_bytes(s[i]));
    lemma_envelope_bytes_parts(b, e);
    let off = 4 + instrs_bytes(s.take(i)).len() as int;
    let il = instrs_bytes(s).len() as int;
    assert(instrs_bytes(s).subrange(off - 4, off - 4 + instr_bytes(s[i]).len() as int)
        =~= instr_bytes(s[i]));
    assert(prefix_at(b, 4, instrs_bytes(s))) by {
        assert(b.subrange(4, 4 + il) == instrs_bytes(s));
    }
    lemma_prefix_sub(b, 4, instrs_bytes(s), off - 4, off - 4 + instr_bytes(s[i]).len() as int);
}

/// Reads a whole canonical envelope. Accepts exactly the canonical images:
/// any well-formed envelope's bytes are recovered field for field, and
/// whatever is accepted re-encodes to the input bytes, consumed in full.
pub fn from_canonical_bytes(bytes: &Vec<u8>) -> (r: Result<WvmData, PayTubeError>)
    ensures
        r matches Ok(v) ==> v.wf() && envelope_bytes(v@) == bytes@,
        forall|e: EnvelopeModel|
            e.wf() && #[trigger] envelope_bytes(e) == bytes@ ==> (r matches Ok(v) && v@ == e),
{
    proof {
        lemma_auto_spec_u32_to_from_le_bytes();
        assert forall|e: EnvelopeModel|
            e.wf() && #[trigger] envelope_bytes(e) == bytes@ implies ({
            &&& bytes@.len() >= 68
            &&& e.instructions.len() == spec_u32_from_le_bytes(bytes@.subrange(0, 4)) as int
        }) by {
            lemma_envelope_bytes_parts(bytes@, e);
            assert(spec_u32_from_le_bytes(spec_u32_to_le_bytes(e.instructions.len() as u32))
                == e.instructions.len() as u32);
        }
    }
    if bytes.len() < 4 {
        return Err(PayTubeError::Encoding);
    }
    let n = u32_from_le_bytes(slice_subrange(bytes.as_slice(), 0, 4));
    let mut out: Vec<SvmInstruction> = Vec::new();
    let mut cur: usize = 4;
    let mut i: u32 = 0;
    while i < n
        invariant
            bytes@.len() >= 4,
            i <= n,
            4 <= cur <= bytes@.len(),
            out@.len() == i as int,
            forall|k: int| 0 <= k < out@.len() ==> (#[trigger] instr_views(out@)[k]).wf(),
            cur as int == 4 + instrs_bytes(instr_views(out@)).len(),
            bytes@.subrange(4, cur as int) == instrs_bytes(instr_views(out@)),
            n == spec_u32_from_le_bytes(bytes@.subrange(0, 4)),
            forall|e: EnvelopeModel|
                e.wf() && #[trigger] envelope_bytes(e) == bytes@ ==> e.instructions.len() == n
                    as int && instr_views(out@) == e.instructions.take(i as int),
        decreases n - i,
    {
        proof {
            assert forall|e: EnvelopeModel|
                e.wf() && #[trigger] envelope_bytes(e) == bytes@ implies ({
                &&& (#[trigger] e.instructions[i as int]).wf()
                &&& prefix_at(bytes@, cur as int, instr_bytes(e.instructions[i as int]))
            }) by {
                lemma_envelope_instr_at(bytes@, e, i as int);
            }
        }
        let step = parse_instr(bytes, cur);
        match step {
            Err(err) => {
                proof {
                    assert forall|e: EnvelopeModel|
                        e.wf() && #[trigger] envelope_bytes(e) == bytes@ implies false by {
                        assert(prefix_at(bytes@, cur as int, instr_bytes(e.instructions[i as int])));
                    }
                }
                return Err(err);
            },
            Ok((ix, next)) => {
                proof {
                    let vs = instr_views(out@);
                    assert(instr_views(out@.push(ix)) =~= vs.push(ix@));
                    assert(vs.push(ix@) =~= vs + seq![ix@]);
                    lemma_instrs_bytes_app(vs, seq![ix@]);
                    assert(seq![ix@].drop_first() =~= Seq::<InstrModel>::empty());
                    assert(instrs_bytes(Seq::<InstrModel>::empty()) =~= Seq::<u8>::empty());
                    assert(instrs_bytes(seq![ix@]) =~= instr_bytes(ix@));
                    assert(bytes@.subrange(4, next as int) =~= bytes@.subrange(4, cur as int)
                        + bytes@.subrange(cur as int, next as int));
                    assert forall|e: EnvelopeModel|
                        e.wf() && #[trigger] envelope_bytes(e) == bytes@ implies instr_views(
                        out@.push(ix),
                    ) == e.instructions.take(i as int + 1) by {
                        assert(ix@ == e.instructions[i as int]);
                        assert(e.instructions.take(i as int + 1) =~= e.instructions.take(
                            i as int,
                        ).push(e.instructions[i as int]));
                    }
                }
                out.push(ix);
                cur = next;
                i = i + 1;
            },
        }
    }
    proof {
        assert forall|e: EnvelopeModel|
            e.wf() && #[trigger] envelope_bytes(e) == bytes@ implies ({
            &&& instr_views(out@) == e.instructions
            &&& cur as int == bytes@.len() - 64
            &&& e.payer == bytes@.subrange(bytes@.len() - 64, bytes@.len() - 32)
            &&& e.svm_blockhash == bytes@.subrange(bytes@.len() - 32, bytes@.len() as int)
        }) by {
            assert(e.instructions.take(n as int) =~= e.instructions);
            lemma_envelope_bytes_parts(bytes@, e);
        }
    }
    if bytes.len() - cur != 64 {
        return Err(PayTubeError::Encoding);
    }
    let payer = slice_to_vec(slice_subrange(bytes.as_slice(), cur, cur + 32));
    let bh = slice_to_vec(slice_subrange(bytes.as_slice(), cur + 32, cur + 64));
    let v = WvmData {
        instructions: out,
        payer: Bytes32 { bytes: payer },
        svm_blockhash: Bytes32 { bytes: bh },
    };
    proof {
        lemma_auto_spec_u32_to_from_le_bytes();
        assert(v@.instructions.len() == n as int);
        assert(v@.wf());
        assert(bytes@.subrange(0, 4) == spec_u32_to_le_bytes(v@.instructions.len() as u32)) by {
            assert(spec_u32_to_le_bytes(spec_u32_from_le_bytes(bytes@.subrange(0, 4)))
                == bytes@.subrange(0, 4));
        }
        assert(bytes@ =~= bytes@.subrange(0, 4) + bytes@.subrange(4, cur as int) + bytes@.subrange(
            cur as int,
            cur as int + 32,
        ) + bytes@.subrange(cur as int + 32, cur as int + 64));
        assert(envelope_bytes(v@) == bytes@);
        assert forall|e: EnvelopeModel|
            e.wf() && #[trigger] envelope_bytes(e) == bytes@ implies v@ == e by {
            assert(v@ =~= e);
        }
    }
    Ok(v)
}

/// What the Brotli compressor returns for a given byte stream.
pub uninterp spec fn compressed(b: Seq<u8>) -> Seq<u8>;

/// Relies on brotlic's CompressorWriter: Brotli compression under the
/// default configuration is a deterministic, stateless function of the
/// input bytes, carrying no timestamps or per-call state, and compressing
/// into an in-memory buffer cannot fail, so the encoder and its
/// finalization never report an error here.
#[verifier::external_body]
fn brotli_compress(b: &Vec<u8>) -> (r: Vec<u8>)
    ensures
        r@ == compressed(b@),
{
    let mut writer = brotlic::CompressorWriter::new(Vec::new());
    std::io::Write::write_all(&mut writer, b.as_slice()).unwrap();
    writer.into_inner().unwrap()
}

/// Relies on brotlic's DecompressorWriter: Brotli is lossless, so
/// decompressing any output of the compressor succeeds and recovers the
/// compressor's input bytes exactly.
#[verifier::external_body]
fn brotli_decompress(b: &Vec<u8>) -> (r: Result<Vec<u8>, PayTubeError>)
    ensures
        r is Ok <== exists|orig: Seq<u8>| b@ == #[trigger] compressed(orig),
        r matches Ok(v) ==> forall|orig: Seq<u8>| b@ == #[trigger] compressed(orig) ==> v@ == orig,
{
    let mut writer = brotlic::DecompressorWriter::new(Vec::new());
    if std::io::Write::write_all(&mut writer, b.as_slice()).is_err() {
        return Err(PayTubeError::Encoding);
    }
    match writer.into_inner() {
        Ok(v) => Ok(v),
        Err(_) => Err(PayTubeError::Encoding),
    }
}

/// A settled batch ready for audit publication: the executed instructions in
/// order, the fee-paying identity, and the base ledger's recent block hash
/// as a freshness anchor.
#[derive(Debug, Clone, PartialEq, Eq)]
pub struct WvmData {
    pub instructions: Vec<SvmInstruction>,
    pub payer: Bytes32,
    pub svm_blockhash: Bytes32,
}

impl View for WvmData {
    type V = EnvelopeModel;

    open spec fn view(&self) -> EnvelopeModel {
        EnvelopeModel {
            instructions: instr_views(self.instructions@),
            payer: self.payer@,
            svm_blockhash: self.svm_blockhash@,
        }
    }
}

impl WvmData {
    pub open spec fn wf(&self) -> bool {
        self@.wf()
    }

    /// Gathers a batch into an envelope, preserving instruction order.
    pub fn from(instructions: Vec<SvmInstruction>, payer: Bytes32, svm_blockhash: Bytes32) -> (r:
        WvmData)
        ensures
            r@.instructions == instr_views(instructions@),
            r@.payer == payer@,
            r@.svm_blockhash == svm_blockhash@,
    {
        WvmData { instructions, payer, svm_blockhash }
    }

    /// The canonical, uncompressed byte form of this envelope. Equal field
    /// values always yield identical bytes.
    pub fn to_canonical_bytes(&self) -> (r: Vec<u8>)
        requires
            self.wf(),
        ensures
            r@ == envelope_bytes(self@),
    {
        let mut out: Vec<u8> = Vec::new();
        let count = u32_to_le_bytes(self.instructions.len() as u32);
        append_bytes(&mut out, &count);
        let ghost base = out@;
        let mut i: usize = 0;
        while i < self.instructions.len()
            invariant
                i <= self.instructions@.len(),
                self.wf(),
                out@ == base + instrs_bytes(instr_views(self.instructions@).take(i as int)),
            decreases self.instructions@.len() - i,
        {
            proof {
                assert(instr_views(self.instructions@)[i as int] == self.instructions@[i as int]@);
                assert(self@.instructions[i as int].wf());
            }
            encode_instr(&mut out, &self.instructions[i]);
            proof {
                lemma_instrs_take_step(instr_views(self.instructions@), i as int);
            }
            i = i + 1;
        }
        proof {
            assert(instr_views(self.instructions@).take(self.instructions@.len() as int)
                =~= instr_views(self.instructions@));
        }
        append_bytes(&mut out, &self.payer.bytes);
        append_bytes(&mut out, &self.svm_blockhash.bytes);
        proof {
            assert(self@.instructions.len() == self.instructions@.len());
            assert(out@ =~= envelope_bytes(self@));
        }
        out
    }

    /// The settlement envelope payload: the canonical bytes of this batch,
    /// Brotli-compressed. Always produced, and equal batches always yield
    /// byte-identical payloads.
    pub fn serialize(data: Self) -> (r: Vec<u8>)
        requires
            data.wf(),
        ensures
            r@ == compressed(envelope_bytes(data@)),
    {
        let canonical = data.to_canonical_bytes();
        brotli_compress(&canonical)
    }

    /// The exact inverse of `serialize`: any payload `serialize` produced
    /// decodes back to the batch it came from, field for field.
    pub fn deserialize(bytes: &Vec<u8>) -> (r: Result<WvmData, PayTubeError>)
        ensures
            r matches Ok(v) ==> v.wf(),
            forall|e: EnvelopeModel|
                e.wf() && bytes@ == compressed(#[trigger] envelope_bytes(e)) ==> (r matches Ok(v)
                    && v@ == e),
    {
        match brotli_decompress(bytes) {
            Err(e) => Err(e),
            Ok(canonical) => from_canonical_bytes(&canonical),
        }
    }
}

/// Encoding is deterministic: envelopes holding equal field values yield
/// identical canonical bytes and identical compressed payloads, so the
/// envelope can serve as a reproducible audit record.
pub proof fn lemma_encode_deterministic(e1: EnvelopeModel, e2: EnvelopeModel)
    requires
        e1 == e2,
    ensures
        envelope_bytes(e1) == envelope_bytes(e2),
        compressed(envelope_bytes(e1)) == compressed(envelope_bytes(e2)),
{
}

} // verus!
