//! The transaction codec and signer: variable-length integers, input and
//! output wire formats, whole-transaction serialization and parsing, and
//! per-format signing.
use vstd::prelude::*;

use crate::address::BitcoinAddress;
use crate::amount::BitcoinAmount;
use crate::amount::MAX_COINS;
use crate::encoding::le_bytes;
use crate::encoding::le_val;
use crate::encoding::lemma_le_bytes_of_val;
use crate::encoding::append_le_bytes;
use crate::encoding::read_le_bytes;
use crate::format::BitcoinFormat;
use crate::format::clone_bytes;
use crate::hashing::sha256_of;
use crate::private_key::BitcoinPrivateKey;
use crate::text_codec::base58_bytes_of;
use crate::text_codec::base58_decode;
use crate::text_codec::bech32_decode;
use crate::text_codec::bech32_prog_of;
use crate::text_codec::bech32_ver_of;
use crate::witness_program::WitnessProgram;
use crate::witness_program::witness_scriptpubkey;

verus! {

#[derive(Debug, Clone, PartialEq, Eq)]
pub enum TransactionError {
    Crate(String, String),
    AmountError(crate::amount::AmountError),
    AddressError(crate::address::AddressError),
    InvalidInputs(String),
    InvalidScriptPubKey(String),
    InvalidSegwitFlag(usize),
    InvalidTransactionId(usize),
    InvalidVariableSizeInteger(usize),
    MissingOutpointScriptPublicKey,
    /// The byte stream ended before the field being read.
    EndOfStream,
}

/// The canonical Bitcoin variable-length integer encoding of `n`.
pub open spec fn vli(n: int) -> Seq<u8> {
    if n <= 252 {
        seq![n as u8]
    } else if n <= 0xFFFF {
        seq![0xfdu8] + le_bytes(n, 2)
    } else if n <= 0xFFFF_FFFF {
        seq![0xfeu8] + le_bytes(n, 4)
    } else {
        seq![0xffu8] + le_bytes(n, 8)
    }
}

/// Encodes `value` as a canonical variable-length integer.
pub fn variable_length_integer(value: u64) -> (r: Result<Vec<u8>, TransactionError>)
    ensures
        r matches Ok(v) && v@ == vli(value as int),
{
    let mut out: Vec<u8> = Vec::new();
    if value <= 252 {
        out.push(value as u8);
        proof {
            assert(out@ =~= vli(value as int));
        }
    } else if value <= 0xFFFF {
        out.push(0xfd);
        proof {
            crate::encoding::lemma_pow256_values();
        }
        append_le_bytes(&mut out, value, 2);
        proof {
            assert(out@ =~= vli(value as int));
        }
    } else if value <= 0xFFFF_FFFF {
        out.push(0xfe);
        proof {
            crate::encoding::lemma_pow256_values();
        }
        append_le_bytes(&mut out, value, 4);
        proof {
            assert(out@ =~= vli(value as int));
        }
    } else {
        out.push(0xff);
        proof {
            crate::encoding::lemma_pow256_values();
        }
        append_le_bytes(&mut out, value, 8);
        proof {
            assert(out@ =~= vli(value as int));
        }
    }
    Ok(out)
}

/// What parsing a variable-length integer at `pos` yields: the value and
/// the position after it, an `EndOfStream` when bytes run out, or a
/// non-canonical-encoding error.
pub open spec fn vli_parse(d: Seq<u8>, pos: int) -> Result<(int, int), TransactionError> {
    if pos >= d.len() {
        Err(TransactionError::EndOfStream)
    } else {
        let f = d[pos];
        if f <= 252 {
            Ok((f as int, pos + 1))
        } else if f == 0xfd {
            if pos + 3 > d.len() {
                Err(TransactionError::EndOfStream)
            } else {
                let v = le_val(d.subrange(pos + 1, pos + 3));
                if v < 253 {
                    Err(TransactionError::InvalidVariableSizeInteger(v as usize))
                } else {
                    Ok((v, pos + 3))
                }
            }
        } else if f == 0xfe {
            if pos + 5 > d.len() {
                Err(TransactionError::EndOfStream)
            } else {
                let v = le_val(d.subrange(pos + 1, pos + 5));
                if v < 65536 {
                    Err(TransactionError::InvalidVariableSizeInteger(v as usize))
                } else {
                    Ok((v, pos + 5))
                }
            }
        } else {
            if pos + 9 > d.len() {
                Err(TransactionError::EndOfStream)
            } else {
                let v = le_val(d.subrange(pos + 1, pos + 9));
                if v < 0x1_0000_0000 {
                    Err(TransactionError::InvalidVariableSizeInteger(v as usize))
                } else {
                    Ok((v, pos + 9))
                }
            }
        }
    }
}

/// A successfully parsed variable-length integer re-encodes to exactly the
/// consumed bytes.
pub proof fn lemma_vli_parse_inverse(d: Seq<u8>, pos: int)
    requires
        0 <= pos,
        vli_parse(d, pos) is Ok,
    ensures
        ({
            let (v, p) = vli_parse(d, pos).unwrap();
            pos < p <= d.len() && 0 <= v < 0x1_0000_0000_0000_0000 && vli(v) == d.subrange(
                pos,
                p,
            )
        }),
{
    let f = d[pos];
    if f <= 252 {
        assert(vli(f as int) == seq![f]);
        assert(d.subrange(pos, pos + 1) =~= seq![f]);
    } else if f == 0xfd {
        let sub = d.subrange(pos + 1, pos + 3);
        crate::encoding::lemma_le_val_bound(sub);
        crate::encoding::lemma_pow256_values();
        lemma_le_bytes_of_val(sub);
        assert(vli(le_val(sub)) =~= d.subrange(pos, pos + 3));
    } else if f == 0xfe {
        let sub = d.subrange(pos + 1, pos + 5);
        crate::encoding::lemma_le_val_bound(sub);
        crate::encoding::lemma_pow256_values();
        lemma_le_bytes_of_val(sub);
        assert(vli(le_val(sub)) =~= d.subrange(pos, pos + 5));
    } else {
        let sub = d.subrange(pos + 1, pos + 9);
        crate::encoding::lemma_le_val_bound(sub);
        crate::encoding::lemma_pow256_values();
        lemma_le_bytes_of_val(sub);
        assert(vli(le_val(sub)) =~= d.subrange(pos, pos + 9));
    }
}

/// Parses a variable-length integer at `pos`, rejecting non-canonical
/// encodings.
pub fn read_variable_length_integer(data: &Vec<u8>, pos: usize) -> (r: Result<
    (u64, usize),
    TransactionError,
>)
    ensures
        match vli_parse(data@, pos as int) {
            Ok((v, p)) => r matches Ok(t) && t.0 == v && t.1 == p,
            Err(e) => r == Err::<(u64, usize), TransactionError>(e),
        },
        r matches Ok(t) ==> vli(t.0 as int) == data@.subrange(pos as int, t.1 as int)
            && pos < t.1 <= data@.len(),
{
    let n: usize = data.len();
    if pos >= n {
        return Err(TransactionError::EndOfStream);
    }
    let flag: u8 = data[pos];
    if flag <= 252 {
        proof {
            lemma_vli_parse_inverse(data@, pos as int);
        }
        Ok(((flag as u64), pos + 1))
    } else if flag == 0xfd {
        if n - pos < 3 {
            return Err(TransactionError::EndOfStream);
        }
        let v: u64 = read_le_bytes(data, pos + 1, 2);
        if v < 253 {
            return Err(TransactionError::InvalidVariableSizeInteger(v as usize));
        }
        proof {
            lemma_vli_parse_inverse(data@, pos as int);
        }
        Ok((v, pos + 3))
    } else if flag == 0xfe {
        if n - pos < 5 {
            return Err(TransactionError::EndOfStream);
        }
        let v: u64 = read_le_bytes(data, pos + 1, 4);
        if v < 65536 {
            return Err(TransactionError::InvalidVariableSizeInteger(v as usize));
        }
        proof {
            lemma_vli_parse_inverse(data@, pos as int);
        }
        Ok((v, pos + 5))
    } else {
        if n - pos < 9 {
            return Err(TransactionError::EndOfStream);
        }
        let v: u64 = read_le_bytes(data, pos + 1, 8);
        if v < 0x1_0000_0000 {
            return Err(TransactionError::InvalidVariableSizeInteger(v as usize));
        }
        proof {
            lemma_vli_parse_inverse(data@, pos as int);
        }
        Ok((v, pos + 9))
    }
}

/// The position after a counted byte vector at `pos`, if its count parses
/// and its bytes are all present.
pub open spec fn byte_vector_end(d: Seq<u8>, pos: int) -> Option<int> {
    match vli_parse(d, pos) {
        Ok((n, p)) => if n <= d.len() - p {
            Some(p + n)
        } else {
            None
        },
        Err(_) => None,
    }
}

/// The helpers that read counted structures from the byte stream.
pub struct BitcoinVector;

impl BitcoinVector {
    /// Reads a variable-length count and that many raw bytes.
    pub fn read_byte_vector(data: &Vec<u8>, pos: usize) -> (r: Result<
        (Vec<u8>, usize),
        TransactionError,
    >)
        ensures
            r is Ok <==> byte_vector_end(data@, pos as int) is Some,
            r matches Ok(t) ==> pos <= t.1 <= data@.len() && vli(t.0@.len() as int) + t.0@
                == data@.subrange(pos as int, t.1 as int) && Some(t.1 as int)
                == byte_vector_end(data@, pos as int) && (match vli_parse(
                data@,
                pos as int,
            ) {
                Ok((n, p)) => t.0@ == data@.subrange(p, p + n) && t.0@.len() == n,
                Err(_) => false,
            }),
    {
        let (count, mut at) = match read_variable_length_integer(data, pos) {
            Ok(t) => t,
            Err(e) => {
                return Err(e);
            },
        };
        let n: usize = data.len();
        if count > (n - at) as u64 {
            return Err(TransactionError::EndOfStream);
        }
        let count_us: usize = count as usize;
        let ghost start = at;
        let mut out: Vec<u8> = Vec::new();
        let mut i: usize = 0;
        while i < count_us
            invariant
                i <= count_us,
                at == start + i,
                start + count_us <= n,
                n == data@.len(),
                out@ == data@.subrange(start as int, at as int),
                out@.len() == i,
            decreases count_us - i,
        {
            out.push(data[at]);
            proof {
                assert(out@ =~= data@.subrange(start as int, at + 1));
            }
            at = at + 1;
            i = i + 1;
        }
        proof {
            assert(vli(out@.len() as int) + out@ =~= data@.subrange(pos as int, at as int));
        }
        Ok((out, at))
    }

    /// Reads one witness stack item: a counted byte string kept with its
    /// length prefix, as the wire emits it.
    pub fn read_witness_item(data: &Vec<u8>, pos: usize) -> (r: Result<
        (Vec<u8>, usize),
        TransactionError,
    >)
        ensures
            r is Ok <==> byte_vector_end(data@, pos as int) is Some,
            r matches Ok(t) ==> pos <= t.1 <= data@.len() && t.0@ == data@.subrange(
                pos as int,
                t.1 as int,
            ) && t.0@.len() >= 1 && Some(t.1 as int) == byte_vector_end(
                data@,
                pos as int,
            ),
    {
        let (bytes, at) = match Self::read_byte_vector(data, pos) {
            Ok(t) => t,
            Err(e) => {
                return Err(e);
            },
        };
        let prefix = match variable_length_integer(bytes.len() as u64) {
            Ok(v) => v,
            Err(e) => {
                return Err(e);
            },
        };
        let mut item = prefix;
        crate::address::append_bytes(&mut item, &bytes);
        proof {
            assert(item@ =~= data@.subrange(pos as int, at as int));
        }
        Ok((item, at))
    }
}

/// The sighash modes a signature can commit to.
#[derive(Debug, Clone, Copy, PartialEq, Eq, Hash, Structural)]
#[allow(non_camel_case_types)]
pub enum SignatureHash {
    SIG_ALL,
    SIG_NONE,
    SIG_SINGLE,
    SIGHASH_ALL_SIGHASH_ANYONECANPAY,
    SIGHASH_NONE_SIGHASH_ANYONECANPAY,
    SIGHASH_SINGLE_SIGHASH_ANYONECANPAY,
}

/// The byte value of each sighash mode.
pub open spec fn sighash_byte(s: SignatureHash) -> u8 {
    match s {
        SignatureHash::SIG_ALL => 0x01,
        SignatureHash::SIG_NONE => 0x02,
        SignatureHash::SIG_SINGLE => 0x03,
        SignatureHash::SIGHASH_ALL_SIGHASH_ANYONECANPAY => 0x81,
        SignatureHash::SIGHASH_NONE_SIGHASH_ANYONECANPAY => 0x82,
        SignatureHash::SIGHASH_SINGLE_SIGHASH_ANYONECANPAY => 0x83,
    }
}

/// The sighash mode a byte denotes, with unknown bytes read as all-inputs.
pub open spec fn sighash_from_byte(byte: u8) -> SignatureHash {
    if byte == 0x02 {
        SignatureHash::SIG_NONE
    } else if byte == 0x03 {
        SignatureHash::SIG_SINGLE
    } else if byte == 0x81 {
        SignatureHash::SIGHASH_ALL_SIGHASH_ANYONECANPAY
    } else if byte == 0x82 {
        SignatureHash::SIGHASH_NONE_SIGHASH_ANYONECANPAY
    } else if byte == 0x83 {
        SignatureHash::SIGHASH_SINGLE_SIGHASH_ANYONECANPAY
    } else {
        SignatureHash::SIG_ALL
    }
}

impl SignatureHash {
    pub fn from_byte(byte: &u8) -> (r: Self)
        ensures
            r == sighash_from_byte(*byte),
    {
        match *byte {
            0x02 => SignatureHash::SIG_NONE,
            0x03 => SignatureHash::SIG_SINGLE,
            0x81 => SignatureHash::SIGHASH_ALL_SIGHASH_ANYONECANPAY,
            0x82 => SignatureHash::SIGHASH_NONE_SIGHASH_ANYONECANPAY,
            0x83 => SignatureHash::SIGHASH_SINGLE_SIGHASH_ANYONECANPAY,
            _ => SignatureHash::SIG_ALL,
        }
    }

    pub fn to_byte(&self) -> (r: u8)
        ensures
            r == sighash_byte(*self),
    {
        match self {
            SignatureHash::SIG_ALL => 0x01,
            SignatureHash::SIG_NONE => 0x02,
            SignatureHash::SIG_SINGLE => 0x03,
            SignatureHash::SIGHASH_ALL_SIGHASH_ANYONECANPAY => 0x81,
            SignatureHash::SIGHASH_NONE_SIGHASH_ANYONECANPAY => 0x82,
            SignatureHash::SIGHASH_SINGLE_SIGHASH_ANYONECANPAY => 0x83,
        }
    }
}

/// The script opcodes the wallet emits.
#[derive(Debug, Copy, Clone, PartialEq, Eq, Hash, Structural)]
#[allow(non_camel_case_types)]
pub enum Opcode {
    OP_DUP,
    OP_HASH160,
    OP_CHECKSIG,
    OP_EQUAL,
    OP_EQUALVERIFY,
}

impl Opcode {
    pub fn to_byte(&self) -> (r: u8)
        ensures
            r == (match *self {
                Opcode::OP_DUP => 0x76u8,
                Opcode::OP_HASH160 => 0xa9u8,
                Opcode::OP_CHECKSIG => 0xacu8,
                Opcode::OP_EQUAL => 0x87u8,
                Opcode::OP_EQUALVERIFY => 0x88u8,
            }),
    {
        match self {
            Opcode::OP_DUP => 0x76,
            Opcode::OP_HASH160 => 0xa9,
            Opcode::OP_CHECKSIG => 0xac,
            Opcode::OP_EQUAL => 0x87,
            Opcode::OP_EQUALVERIFY => 0x88,
        }
    }
}


/// The sequence of `s` reversed.
pub open spec fn reversed(s: Seq<u8>) -> Seq<u8> {
    Seq::new(s.len(), |i: int| s[s.len() - 1 - i])
}

/// Reverses a byte vector.
pub fn reverse_bytes(data: &Vec<u8>) -> (r: Vec<u8>)
    ensures
        r@ == reversed(data@),
{
    let n: usize = data.len();
    let mut out: Vec<u8> = Vec::new();
    let mut i: usize = 0;
    while i < n
        invariant
            i <= n,
            n == data@.len(),
            out@.len() == i,
            forall|j: int| 0 <= j < i ==> out@[j] == data@[n - 1 - j],
        decreases n - i,
    {
        out.push(data[n - 1 - i]);
        i = i + 1;
    }
    proof {
        assert(out@ =~= reversed(data@));
    }
    out
}

/// A reference to the coin an input spends, with what is known about how
/// it can be spent.
#[derive(Debug, Clone, PartialEq, Eq)]
pub struct Outpoint {
    pub reverse_transaction_id: Vec<u8>,
    pub index: u32,
    pub amount: Option<BitcoinAmount>,
    pub script_pub_key: Option<Vec<u8>>,
    pub redeem_script: Option<Vec<u8>>,
    pub address: Option<BitcoinAddress>,
}

#[derive(Debug, Clone, PartialEq, Eq)]
pub struct BitcoinTransactionInput {
    pub outpoint: Outpoint,
    pub script_sig: Vec<u8>,
    pub sequence: Vec<u8>,
    pub sighash_code: SignatureHash,
    pub witnesses: Vec<Vec<u8>>,
    pub is_signed: bool,
    pub additional_witness: Option<(Vec<u8>, bool)>,
    pub witness_script_data: Option<Vec<u8>>,
}

#[derive(Debug, Clone, PartialEq, Eq)]
pub struct BitcoinTransactionOutput {
    pub amount: BitcoinAmount,
    pub script_pub_key: Vec<u8>,
}

#[derive(Debug, Clone, PartialEq, Eq)]
pub struct BitcoinTransactionId {
    pub txid: Vec<u8>,
    pub wtxid: Vec<u8>,
}

#[derive(Debug, Clone, PartialEq, Eq)]
pub struct BitcoinTransactionParameters {
    pub version: u32,
    pub inputs: Vec<BitcoinTransactionInput>,
    pub outputs: Vec<BitcoinTransactionOutput>,
    pub lock_time: u32,
    pub segwit_flag: bool,
}

#[derive(Debug, Clone, PartialEq, Eq)]
pub struct BitcoinTransaction {
    pub parameters: BitcoinTransactionParameters,
}

/// The 36 wire bytes naming the spent coin.
pub open spec fn outpoint_wire(o: Outpoint) -> Seq<u8> {
    o.reverse_transaction_id@ + le_bytes(o.index as int, 4)
}

/// A length-prefixed byte string.
pub open spec fn script_field(s: Seq<u8>) -> Seq<u8> {
    vli(s.len() as int) + s
}

/// Whether an input can be serialized: an unsigned legacy input with an
/// address needs its previous scriptPubKey on hand.
pub open spec fn input_ser_ok(i: BitcoinTransactionInput, raw: bool) -> bool {
    raw || i.script_sig@.len() > 0 || (match i.outpoint.address {
        Some(a) => a.format == BitcoinFormat::Bech32 || a.format == BitcoinFormat::P2WSH
            || i.outpoint.script_pub_key is Some,
        None => true,
    })
}

/// The script slot an input serializes: a placeholder for raw or
/// native-segwit inputs, the previous scriptPubKey for unsigned legacy
/// inputs, and the scriptSig once signed.
pub open spec fn input_script_slot(i: BitcoinTransactionInput, raw: bool) -> Seq<u8> {
    if raw {
        seq![0u8]
    } else if i.script_sig@.len() == 0 {
        match i.outpoint.address {
            Some(a) => if a.format == BitcoinFormat::Bech32 || a.format
                == BitcoinFormat::P2WSH {
                seq![0u8]
            } else {
                match i.outpoint.script_pub_key {
                    Some(spk) => script_field(spk@),
                    None => seq![0u8],
                }
            },
            None => seq![0u8],
        }
    } else {
        script_field(i.script_sig@)
    }
}

/// The wire bytes of one input.
pub open spec fn input_ser(i: BitcoinTransactionInput, raw: bool) -> Seq<u8> {
    outpoint_wire(i.outpoint) + input_script_slot(i, raw) + i.sequence@
}

/// The wire bytes of one output.
pub open spec fn output_ser(o: BitcoinTransactionOutput) -> Seq<u8> {
    le_bytes((o.amount.0 as u64) as int, 8) + script_field(o.script_pub_key@)
}

/// The concatenated wire bytes of the inputs, each raw unless signed.
pub open spec fn inputs_ser(s: Seq<BitcoinTransactionInput>) -> Seq<u8>
    decreases s.len(),
{
    if s.len() == 0 {
        Seq::empty()
    } else {
        input_ser(s[0], !s[0].is_signed) + inputs_ser(s.drop_first())
    }
}

pub open spec fn inputs_ser_ok(s: Seq<BitcoinTransactionInput>) -> bool
    decreases s.len(),
{
    if s.len() == 0 {
        true
    } else {
        input_ser_ok(s[0], !s[0].is_signed) && inputs_ser_ok(s.drop_first())
    }
}

pub open spec fn outputs_ser(s: Seq<BitcoinTransactionOutput>) -> Seq<u8>
    decreases s.len(),
{
    if s.len() == 0 {
        Seq::empty()
    } else {
        output_ser(s[0]) + outputs_ser(s.drop_first())
    }
}

/// The concatenation of already-prefixed witness stack items.
pub open spec fn concat_bytes(ws: Seq<Seq<u8>>) -> Seq<u8>
    decreases ws.len(),
{
    if ws.len() == 0 {
        Seq::empty()
    } else {
        ws[0] + concat_bytes(ws.drop_first())
    }
}

/// The witness stack of one input: its item count, then the items.
pub open spec fn witness_ser(i: BitcoinTransactionInput) -> Seq<u8> {
    if i.witnesses@.len() == 0 {
        seq![0u8]
    } else {
        vli(i.witnesses@.len() as int) + concat_bytes(i.witnesses.deep_view())
    }
}

pub open spec fn witnesses_ser(s: Seq<BitcoinTransactionInput>) -> Seq<u8>
    decreases s.len(),
{
    if s.len() == 0 {
        Seq::empty()
    } else {
        witness_ser(s[0]) + witnesses_ser(s.drop_first())
    }
}

/// The full wire bytes of a transaction: the version; the segwit marker,
/// inputs, outputs, and per-input witness stacks when flagged; the lock
/// time.
pub open spec fn tx_ser(p: BitcoinTransactionParameters) -> Seq<u8> {
    le_bytes(p.version as int, 4) + (if p.segwit_flag {
        seq![0x00u8, 0x01u8]
    } else {
        Seq::<u8>::empty()
    }) + vli(p.inputs@.len() as int) + inputs_ser(p.inputs@) + vli(p.outputs@.len() as int)
        + outputs_ser(p.outputs@) + (if p.segwit_flag {
        witnesses_ser(p.inputs@)
    } else {
        Seq::<u8>::empty()
    }) + le_bytes(p.lock_time as int, 4)
}

pub open spec fn tx_ser_ok(p: BitcoinTransactionParameters) -> bool {
    inputs_ser_ok(p.inputs@)
}

/// The wire bytes with all witness data and the segwit marker stripped,
/// which the txid commits to.
pub open spec fn tx_ser_without_witness(p: BitcoinTransactionParameters) -> Seq<u8> {
    le_bytes(p.version as int, 4) + vli(p.inputs@.len() as int) + inputs_ser(p.inputs@) + vli(
        p.outputs@.len() as int,
    ) + outputs_ser(p.outputs@) + le_bytes(p.lock_time as int, 4)
}

pub proof fn lemma_inputs_ser_snoc(s: Seq<BitcoinTransactionInput>, x: BitcoinTransactionInput)
    ensures
        inputs_ser(s + seq![x]) == inputs_ser(s) + input_ser(x, !x.is_signed),
        inputs_ser_ok(s + seq![x]) == (inputs_ser_ok(s) && input_ser_ok(x, !x.is_signed)),
    decreases s.len(),
{
    if s.len() == 0 {
        assert((s + seq![x]).drop_first() =~= Seq::<BitcoinTransactionInput>::empty());
        assert(inputs_ser(Seq::<BitcoinTransactionInput>::empty()) == Seq::<u8>::empty());
        assert(inputs_ser_ok(Seq::<BitcoinTransactionInput>::empty()));
        assert((s + seq![x])[0] == x);
        assert(inputs_ser(s + seq![x]) =~= input_ser(x, !x.is_signed));
        assert(inputs_ser(s) + input_ser(x, !x.is_signed) =~= input_ser(x, !x.is_signed));
    } else {
        assert((s + seq![x]).drop_first() =~= s.drop_first() + seq![x]);
        lemma_inputs_ser_snoc(s.drop_first(), x);
        assert(inputs_ser(s + seq![x]) =~= inputs_ser(s) + input_ser(x, !x.is_signed));
    }
}

pub proof fn lemma_outputs_ser_snoc(
    s: Seq<BitcoinTransactionOutput>,
    x: BitcoinTransactionOutput,
)
    ensures
        outputs_ser(s + seq![x]) == outputs_ser(s) + output_ser(x),
    decreases s.len(),
{
    if s.len() == 0 {
        assert((s + seq![x]).drop_first() =~= Seq::<BitcoinTransactionOutput>::empty());
        assert(outputs_ser(Seq::<BitcoinTransactionOutput>::empty()) == Seq::<u8>::empty());
        assert((s + seq![x])[0] == x);
        assert(outputs_ser(s + seq![x]) =~= output_ser(x));
        assert(outputs_ser(s) + output_ser(x) =~= output_ser(x));
    } else {
        assert((s + seq![x]).drop_first() =~= s.drop_first() + seq![x]);
        lemma_outputs_ser_snoc(s.drop_first(), x);
        assert(outputs_ser(s + seq![x]) =~= outputs_ser(s) + output_ser(x));
    }
}

pub proof fn lemma_concat_bytes_snoc(ws: Seq<Seq<u8>>, x: Seq<u8>)
    ensures
        concat_bytes(ws + seq![x]) == concat_bytes(ws) + x,
    decreases ws.len(),
{
    if ws.len() == 0 {
        assert((ws + seq![x]).drop_first() =~~= Seq::<Seq<u8>>::empty());
        assert(concat_bytes(Seq::<Seq<u8>>::empty()) == Seq::<u8>::empty());
        assert((ws + seq![x])[0] == x);
        assert(concat_bytes(ws + seq![x]) =~= x);
        assert(concat_bytes(ws) + x =~= x);
    } else {
        assert((ws + seq![x]).drop_first() =~~= ws.drop_first() + seq![x]);
        lemma_concat_bytes_snoc(ws.drop_first(), x);
        assert(concat_bytes(ws + seq![x]) =~= concat_bytes(ws) + x);
    }
}

pub proof fn lemma_witnesses_ser_snoc(
    s: Seq<BitcoinTransactionInput>,
    x: BitcoinTransactionInput,
)
    ensures
        witnesses_ser(s + seq![x]) == witnesses_ser(s) + witness_ser(x),
    decreases s.len(),
{
    if s.len() == 0 {
        assert((s + seq![x]).drop_first() =~= Seq::<BitcoinTransactionInput>::empty());
        assert(witnesses_ser(Seq::<BitcoinTransactionInput>::empty()) == Seq::<u8>::empty());
        assert((s + seq![x])[0] == x);
        assert(witnesses_ser(s + seq![x]) =~= witness_ser(x));
        assert(witnesses_ser(s) + witness_ser(x) =~= witness_ser(x));
    } else {
        assert((s + seq![x]).drop_first() =~= s.drop_first() + seq![x]);
        lemma_witnesses_ser_snoc(s.drop_first(), x);
        assert(witnesses_ser(s + seq![x]) =~= witnesses_ser(s) + witness_ser(x));
    }
}


/// Copies `data[start..end]`.
pub fn copy_range(data: &Vec<u8>, start: usize, end: usize) -> (r: Vec<u8>)
    requires
        start <= end <= data@.len(),
    ensures
        r@ == data@.subrange(start as int, end as int),
{
    let mut out: Vec<u8> = Vec::new();
    let mut i: usize = start;
    while i < end
        invariant
            start <= i <= end <= data@.len(),
            out@ == data@.subrange(start as int, i as int),
        decreases end - i,
    {
        out.push(data[i]);
        proof {
            assert(out@ =~= data@.subrange(start as int, i + 1));
        }
        i = i + 1;
    }
    out
}

/// The scriptPubKey bytes a well-formed address denotes.
pub open spec fn address_script_pubkey(a: BitcoinAddress) -> Seq<u8> {
    match a.format {
        BitcoinFormat::P2PKH => seq![0x76u8, 0xa9u8, 0x14u8] + base58_bytes_of(
            a.address@,
        ).subrange(1, 21) + seq![0x88u8, 0xacu8],
        BitcoinFormat::P2SH_P2WPKH => seq![0xa9u8, 0x14u8] + base58_bytes_of(
            a.address@,
        ).subrange(1, 21) + seq![0x87u8],
        BitcoinFormat::Bech32 => witness_scriptpubkey(
            bech32_ver_of(a.address@),
            bech32_prog_of(a.address@),
        ),
        BitcoinFormat::P2WSH => witness_scriptpubkey(
            bech32_ver_of(a.address@),
            bech32_prog_of(a.address@),
        ),
    }
}

/// Builds the scriptPubKey a well-formed address pays to.
pub fn create_script_pub_key(address: &BitcoinAddress) -> (r: Result<Vec<u8>, TransactionError>)
    requires
        address.wf(),
    ensures
        r matches Ok(v) && v@ == address_script_pubkey(*address),
{
    match address.format {
        BitcoinFormat::P2PKH => {
            let bytes = match base58_decode(address.address.as_str()) {
                Some(b) => b,
                None => {
                    proof {
                        assert(false);
                    }
                    return Err(TransactionError::MissingOutpointScriptPublicKey);
                },
            };
            let hash = copy_range(&bytes, 1, bytes.len() - 4);
            let mut script: Vec<u8> = Vec::new();
            script.push(0x76);
            script.push(0xa9);
            let prefix = match variable_length_integer(hash.len() as u64) {
                Ok(v) => v,
                Err(e) => {
                    return Err(e);
                },
            };
            crate::address::append_bytes(&mut script, &prefix);
            crate::address::append_bytes(&mut script, &hash);
            script.push(0x88);
            script.push(0xac);
            proof {
                assert(hash@.len() == 20);
                assert(vli(20) =~= seq![0x14u8]);
                assert(script@ =~= address_script_pubkey(*address));
            }
            Ok(script)
        },
        BitcoinFormat::P2SH_P2WPKH => {
            let bytes = match base58_decode(address.address.as_str()) {
                Some(b) => b,
                None => {
                    proof {
                        assert(false);
                    }
                    return Err(TransactionError::MissingOutpointScriptPublicKey);
                },
            };
            let hash = copy_range(&bytes, 1, bytes.len() - 4);
            let mut script: Vec<u8> = Vec::new();
            script.push(0xa9);
            let prefix = match variable_length_integer(hash.len() as u64) {
                Ok(v) => v,
                Err(e) => {
                    return Err(e);
                },
            };
            crate::address::append_bytes(&mut script, &prefix);
            crate::address::append_bytes(&mut script, &hash);
            script.push(0x87);
            proof {
                assert(hash@.len() == 20);
                assert(vli(20) =~= seq![0x14u8]);
                assert(script@ =~= address_script_pubkey(*address));
            }
            Ok(script)
        },
        BitcoinFormat::Bech32 => {
            proof {
                reveal_strlit("WitnessProgram");
                reveal_strlit("invalid witness program");
            }
            let decoded = match bech32_decode(address.address.as_str()) {
                Some(t) => t,
                None => {
                    proof {
                        assert(false);
                    }
                    return Err(TransactionError::MissingOutpointScriptPublicKey);
                },
            };
            let (_hrp, version, program) = decoded;
            let witness = WitnessProgram { version, program };
            match witness.validate() {
                Ok(()) => {},
                Err(_) => {
                    return Err(
                        TransactionError::Crate(
                            String::from_str("WitnessProgram"),
                            String::from_str("invalid witness program"),
                        ),
                    );
                },
            }
            Ok(witness.to_scriptpubkey())
        },
        BitcoinFormat::P2WSH => {
            proof {
                reveal_strlit("WitnessProgram");
                reveal_strlit("invalid witness program");
            }
            let decoded = match bech32_decode(address.address.as_str()) {
                Some(t) => t,
                None => {
                    proof {
                        assert(false);
                    }
                    return Err(TransactionError::MissingOutpointScriptPublicKey);
                },
            };
            let (_hrp, version, program) = decoded;
            let witness = WitnessProgram { version, program };
            match witness.validate() {
                Ok(()) => {},
                Err(_) => {
                    return Err(
                        TransactionError::Crate(
                            String::from_str("WitnessProgram"),
                            String::from_str("invalid witness program"),
                        ),
                    );
                },
            }
            Ok(witness.to_scriptpubkey())
        },
    }
}

/// Whether a spent coin's description passes the per-format validation:
/// the redeem script present exactly where the format needs one, and the
/// scriptPubKey matching the format's template.
pub open spec fn outpoint_args_ok(
    address: Option<BitcoinAddress>,
    redeem_script: Option<Vec<u8>>,
    script_pub_key: Option<Vec<u8>>,
) -> bool {
    match address {
        None => true,
        Some(a) => {
            let spk = (match script_pub_key {
                Some(s) => s@,
                None => address_script_pubkey(a),
            });
            match a.format {
                BitcoinFormat::P2PKH => redeem_script is None && spk[0] == 0x76 && spk[1]
                    == 0xa9 && spk[spk.len() - 1] == 0xac,
                BitcoinFormat::P2WSH => redeem_script is Some && spk[0] == 0x00 && spk[1]
                    == 0x20 && spk.len() == 34,
                BitcoinFormat::P2SH_P2WPKH => redeem_script is Some && spk[0] == 0xa9
                    && spk[spk.len() - 1] == 0x87,
                BitcoinFormat::Bech32 => redeem_script is None,
            }
        },
    }
}

impl Outpoint {
    /// Resolves and validates the scripts of a spent coin against its
    /// address format.
    pub fn new(
        reverse_transaction_id: Vec<u8>,
        index: u32,
        address: Option<BitcoinAddress>,
        amount: Option<BitcoinAmount>,
        redeem_script: Option<Vec<u8>>,
        script_pub_key: Option<Vec<u8>>,
    ) -> (r: Result<Self, TransactionError>)
        requires
            address matches Some(a) ==> a.wf(),
            address is Some ==> (script_pub_key matches Some(s) ==> s@.len() >= 2),
        ensures
            r is Ok <==> outpoint_args_ok(address, redeem_script, script_pub_key),
            match address {
                None => r matches Ok(o) && o.reverse_transaction_id@
                    == reverse_transaction_id@ && o.index == index && o.amount == amount
                    && o.script_pub_key is None && o.redeem_script is None && o.address
                    is None,
                Some(a) => ({
                    let spk = (match script_pub_key {
                        Some(s) => s@,
                        None => address_script_pubkey(a),
                    });
                    match a.format {
                        BitcoinFormat::P2PKH => {
                            if redeem_script is Some {
                                r matches Err(TransactionError::InvalidInputs(_))
                            } else if !(spk[0] == 0x76 && spk[1] == 0xa9 && spk[spk.len()
                                - 1] == 0xac) {
                                r matches Err(TransactionError::InvalidScriptPubKey(_))
                            } else {
                                r matches Ok(o) && ((o.script_pub_key matches Some(s2)
                                    && s2@ == spk) && o.redeem_script is None && o.address
                                    == Some(a) && o.reverse_transaction_id@
                                    == reverse_transaction_id@ && o.index == index
                                    && o.amount == amount)
                            }
                        },
                        BitcoinFormat::P2WSH => {
                            match redeem_script {
                                Some(rs) => if !(spk[0] == 0x00 && spk[1] == 0x20
                                    && spk.len() == 34) {
                                    r matches Err(TransactionError::InvalidScriptPubKey(_))
                                } else {
                                    r matches Ok(o) && ((o.script_pub_key matches Some(
                                        s2,
                                    ) && s2@ == spk) && (o.redeem_script matches Some(r2)
                                        && r2@ == rs@) && o.address == Some(a)
                                        && o.reverse_transaction_id@
                                        == reverse_transaction_id@ && o.index == index
                                        && o.amount == amount)
                                },
                                None => r matches Err(TransactionError::InvalidInputs(_)),
                            }
                        },
                        BitcoinFormat::P2SH_P2WPKH => {
                            match redeem_script {
                                Some(rs) => if !(spk[0] == 0xa9 && spk[spk.len() - 1]
                                    == 0x87) {
                                    r matches Err(TransactionError::InvalidScriptPubKey(_))
                                } else {
                                    r matches Ok(o) && ((o.script_pub_key matches Some(
                                        s2,
                                    ) && s2@ == spk) && (o.redeem_script matches Some(r2)
                                        && r2@ == rs@) && o.address == Some(a)
                                        && o.reverse_transaction_id@
                                        == reverse_transaction_id@ && o.index == index
                                        && o.amount == amount)
                                },
                                None => r matches Err(TransactionError::InvalidInputs(_)),
                            }
                        },
                        BitcoinFormat::Bech32 => {
                            if redeem_script is Some {
                                r matches Err(TransactionError::InvalidInputs(_))
                            } else {
                                r matches Ok(o) && ((o.script_pub_key matches Some(s2)
                                    && s2@ == spk) && o.redeem_script is None && o.address
                                    == Some(a) && o.reverse_transaction_id@
                                    == reverse_transaction_id@ && o.index == index
                                    && o.amount == amount)
                            }
                        },
                    }
                }),
            },
    {
        proof {
            reveal_strlit("P2PKH");
            reveal_strlit("P2WSH");
            reveal_strlit("P2SH_P2WPKH");
            reveal_strlit("Bech32");
        }
        match address {
            Some(addr) => {
                let spk: Vec<u8> = match script_pub_key {
                    Some(s) => s,
                    None => {
                        match create_script_pub_key(&addr) {
                            Ok(s) => s,
                            Err(e) => {
                                return Err(e);
                            },
                        }
                    },
                };
                let n: usize = spk.len();
                match addr.format {
                    BitcoinFormat::P2PKH => {
                        if redeem_script.is_some() {
                            return Err(TransactionError::InvalidInputs(String::from_str("P2PKH")));
                        }
                        if !(spk[0] == 0x76 && spk[1] == 0xa9 && spk[n - 1] == 0xac) {
                            return Err(
                                TransactionError::InvalidScriptPubKey(String::from_str("P2PKH")),
                            );
                        }
                        Ok(Self {
                            reverse_transaction_id,
                            index,
                            amount,
                            script_pub_key: Some(spk),
                            redeem_script: None,
                            address: Some(addr),
                        })
                    },
                    BitcoinFormat::P2WSH => {
                        match redeem_script {
                            Some(rs) => {
                                if !(spk[0] == 0x00 && spk[1] == 0x20 && n == 34) {
                                    return Err(
                                        TransactionError::InvalidScriptPubKey(
                                            String::from_str("P2WSH"),
                                        ),
                                    );
                                }
                                Ok(Self {
                                    reverse_transaction_id,
                                    index,
                                    amount,
                                    script_pub_key: Some(spk),
                                    redeem_script: Some(rs),
                                    address: Some(addr),
                                })
                            },
                            None => Err(TransactionError::InvalidInputs(String::from_str("P2WSH"))),
                        }
                    },
                    BitcoinFormat::P2SH_P2WPKH => {
                        match redeem_script {
                            Some(rs) => {
                                if !(spk[0] == 0xa9 && spk[n - 1] == 0x87) {
                                    return Err(
                                        TransactionError::InvalidScriptPubKey(
                                            String::from_str("P2SH_P2WPKH"),
                                        ),
                                    );
                                }
                                Ok(Self {
                                    reverse_transaction_id,
                                    index,
                                    amount,
                                    script_pub_key: Some(spk),
                                    redeem_script: Some(rs),
                                    address: Some(addr),
                                })
                            },
                            None => Err(
                                TransactionError::InvalidInputs(String::from_str("P2SH_P2WPKH")),
                            ),
                        }
                    },
                    BitcoinFormat::Bech32 => {
                        if redeem_script.is_some() {
                            return Err(
                                TransactionError::InvalidInputs(String::from_str("Bech32")),
                            );
                        }
                        Ok(Self {
                            reverse_transaction_id,
                            index,
                            amount,
                            script_pub_key: Some(spk),
                            redeem_script: None,
                            address: Some(addr),
                        })
                    },
                }
            },
            None => Ok(Self {
                reverse_transaction_id,
                index,
                amount,
                script_pub_key: None,
                redeem_script: None,
                address: None,
            }),
        }
    }
}

/// The sighash mode a scriptSig carries: the byte its leading push length
/// points at, or the all-inputs mode for an empty script.
pub open spec fn scriptsig_sighash(ss: Seq<u8>) -> SignatureHash {
    if ss.len() == 0 {
        SignatureHash::SIG_ALL
    } else {
        match vli_parse(ss, 0) {
            Ok((v, _)) => sighash_from_byte(
                if v == 0 {
                    0x01
                } else {
                    ss[v]
                },
            ),
            Err(_) => SignatureHash::SIG_ALL,
        }
    }
}

/// Whether the sighash heuristic applies to a scriptSig: empty, or led by
/// a parsable length that stays inside the script.
pub open spec fn scriptsig_sighash_ok(ss: Seq<u8>) -> bool {
    ss.len() == 0 || (match vli_parse(ss, 0) {
        Ok((v, _)) => v == 0 || v < ss.len(),
        Err(_) => false,
    })
}

/// Whether an input can be read at `pos`: the 36 outpoint bytes, a counted
/// scriptSig whose sighash heuristic applies, and the 4 sequence bytes.
pub open spec fn input_read_ok(d: Seq<u8>, pos: int) -> bool {
    &&& pos + 36 <= d.len()
    &&& match vli_parse(d, pos + 36) {
        Ok((n, p)) => n <= d.len() - p && p + n + 4 <= d.len() && scriptsig_sighash_ok(
            d.subrange(p, p + n),
        ),
        Err(_) => false,
    }
}

/// The position after an input read at `pos` (meaningful when it reads).
pub open spec fn input_read_end(d: Seq<u8>, pos: int) -> int {
    match vli_parse(d, pos + 36) {
        Ok((n, p)) => p + n + 4,
        Err(_) => 0,
    }
}

/// Whether an output can be read at `pos`: the 8 amount bytes within the
/// satoshi bounds, then a counted scriptPubKey.
pub open spec fn output_read_ok(d: Seq<u8>, pos: int) -> bool {
    &&& pos + 8 <= d.len()
    &&& ({
        let a = (le_val(d.subrange(pos, pos + 8)) as u64) as i64;
        -MAX_COINS <= a <= MAX_COINS
    })
    &&& byte_vector_end(d, pos + 8) is Some
}

/// The position after an output read at `pos` (meaningful when it reads).
pub open spec fn output_read_end(d: Seq<u8>, pos: int) -> int {
    match vli_parse(d, pos + 8) {
        Ok((n, p)) => p + n,
        Err(_) => 0,
    }
}

/// A freshly parsed input: no witness or resolution data beyond the wire.
pub open spec fn input_fresh(i: BitcoinTransactionInput) -> bool {
    i.outpoint.address is None && i.outpoint.script_pub_key is None
        && i.outpoint.redeem_script is None && i.is_signed == (i.script_sig@.len() > 0)
        && i.sequence@.len() == 4 && i.outpoint.reverse_transaction_id@.len() == 32
        && i.witnesses@.len() == 0
}

pub open spec fn inputs_fresh(s: Seq<BitcoinTransactionInput>) -> bool {
    forall|k: int| 0 <= k < s.len() ==> input_fresh(#[trigger] s[k])
}

impl BitcoinTransactionInput {
    /// Builds an unsigned input from the spent coin's description, with the
    /// default sequence when none is supplied.
    pub fn new(
        transaction_id: Vec<u8>,
        index: u32,
        address: Option<BitcoinAddress>,
        amount: Option<BitcoinAmount>,
        redeem_script: Option<Vec<u8>>,
        script_pub_key: Option<Vec<u8>>,
        sequence: Option<Vec<u8>>,
        sighash: SignatureHash,
    ) -> (r: Result<Self, TransactionError>)
        requires
            address matches Some(a) ==> a.wf(),
            address is Some ==> (script_pub_key matches Some(s) ==> s@.len() >= 2),
        ensures
            r is Ok <==> transaction_id@.len() == 32 && outpoint_args_ok(
                address,
                redeem_script,
                script_pub_key,
            ),
            transaction_id@.len() != 32 ==> r == Err::<
                BitcoinTransactionInput,
                TransactionError,
            >(TransactionError::InvalidTransactionId(transaction_id@.len() as usize)),
            r matches Ok(i) ==> transaction_id@.len() == 32
                && i.outpoint.reverse_transaction_id@ == reversed(transaction_id@)
                && i.outpoint.index == index && i.script_sig@.len() == 0 && i.sequence@ == (
            match sequence {
                Some(s) => s@,
                None => seq![0xffu8, 0xffu8, 0xffu8, 0xffu8],
            }) && i.sighash_code == sighash && i.witnesses@.len() == 0 && !i.is_signed
                && i.additional_witness is None && i.witness_script_data is None
                && i.outpoint.address == address,
    {
        if transaction_id.len() != 32 {
            return Err(TransactionError::InvalidTransactionId(transaction_id.len()));
        }
        let reverse_transaction_id = reverse_bytes(&transaction_id);
        let outpoint = match Outpoint::new(
            reverse_transaction_id,
            index,
            address,
            amount,
            redeem_script,
            script_pub_key,
        ) {
            Ok(o) => o,
            Err(e) => {
                return Err(e);
            },
        };
        let seq_bytes: Vec<u8> = match sequence {
            Some(s) => s,
            None => {
                let mut v: Vec<u8> = Vec::new();
                v.push(0xff);
                v.push(0xff);
                v.push(0xff);
                v.push(0xff);
                proof {
                    assert(v@ =~= seq![0xffu8, 0xffu8, 0xffu8, 0xffu8]);
                }
                v
            },
        };
        Ok(
            Self {
                outpoint,
                script_sig: Vec::new(),
                sequence: seq_bytes,
                sighash_code: sighash,
                witnesses: Vec::new(),
                is_signed: false,
                additional_witness: None,
                witness_script_data: None,
            },
        )
    }

    /// Serializes the input: the outpoint, the script slot, the sequence.
    pub fn serialize(&self, raw: bool) -> (r: Result<Vec<u8>, TransactionError>)
        ensures
            input_ser_ok(*self, raw) ==> (r matches Ok(v) && v@ == input_ser(*self, raw)),
            !input_ser_ok(*self, raw) ==> r == Err::<Vec<u8>, TransactionError>(
                TransactionError::MissingOutpointScriptPublicKey,
            ),
    {
        let mut out: Vec<u8> = Vec::new();
        crate::address::append_bytes(&mut out, &self.outpoint.reverse_transaction_id);
        proof {
            crate::encoding::lemma_pow256_values();
        }
        append_le_bytes(&mut out, self.outpoint.index as u64, 4);
        if raw {
            out.push(0x00);
            proof {
                assert(out@ =~= outpoint_wire(self.outpoint) + seq![0u8]);
            }
        } else if self.script_sig.len() == 0 {
            match &self.outpoint.address {
                Some(addr) => {
                    match addr.format {
                        BitcoinFormat::Bech32 => {
                            out.push(0x00);
                        },
                        BitcoinFormat::P2WSH => {
                            out.push(0x00);
                        },
                        _ => {
                            match &self.outpoint.script_pub_key {
                                Some(spk) => {
                                    let prefix = match variable_length_integer(spk.len() as u64) {
                                        Ok(v) => v,
                                        Err(e) => {
                                            return Err(e);
                                        },
                                    };
                                    crate::address::append_bytes(&mut out, &prefix);
                                    crate::address::append_bytes(&mut out, spk);
                                },
                                None => {
                                    return Err(TransactionError::MissingOutpointScriptPublicKey);
                                },
                            }
                        },
                    }
                },
                None => {
                    out.push(0x00);
                },
            }
            proof {
                assert(out@ =~= outpoint_wire(self.outpoint) + input_script_slot(
                    *self,
                    raw,
                ));
            }
        } else {
            let prefix = match variable_length_integer(self.script_sig.len() as u64) {
                Ok(v) => v,
                Err(e) => {
                    return Err(e);
                },
            };
            crate::address::append_bytes(&mut out, &prefix);
            crate::address::append_bytes(&mut out, &self.script_sig);
            proof {
                assert(out@ =~= outpoint_wire(self.outpoint) + input_script_slot(
                    *self,
                    raw,
                ));
            }
        }
        crate::address::append_bytes(&mut out, &self.sequence);
        proof {
            assert(out@ =~= input_ser(*self, raw));
        }
        Ok(out)
    }

    /// Parses an input from the wire: the outpoint, the scriptSig, the
    /// sequence; a nonempty scriptSig marks it signed and carries its
    /// sighash byte.
    pub fn read(data: &Vec<u8>, pos: usize) -> (r: Result<
        (Self, usize),
        TransactionError,
    >)
        ensures
            r is Ok <==> input_read_ok(data@, pos as int),
            r matches Ok(t) ==> pos <= t.1 <= data@.len() && input_ser(t.0, !t.0.is_signed)
                == data@.subrange(pos as int, t.1 as int) && input_fresh(t.0)
                && t.0.witnesses@.len() == 0 && t.0.sighash_code == scriptsig_sighash(
                t.0.script_sig@,
            ) && t.1 == input_read_end(data@, pos as int),
    {
        let n: usize = data.len();
        if pos > n || n - pos < 36 {
            return Err(TransactionError::EndOfStream);
        }
        let txid = copy_range(data, pos, pos + 32);
        let vin: u32 = read_le_bytes(data, pos + 32, 4) as u32;
        let (script_sig, p2) = match BitcoinVector::read_byte_vector(data, pos + 36) {
            Ok(t) => t,
            Err(e) => {
                return Err(e);
            },
        };
        if n - p2 < 4 {
            return Err(TransactionError::EndOfStream);
        }
        let sequence = copy_range(data, p2, p2 + 4);
        let p3: usize = p2 + 4;
        let sighash_code: SignatureHash = if script_sig.len() == 0 {
            SignatureHash::SIG_ALL
        } else {
            let (v, _) = match read_variable_length_integer(&script_sig, 0) {
                Ok(t) => t,
                Err(e) => {
                    return Err(e);
                },
            };
            if v == 0 {
                SignatureHash::from_byte(&0x01)
            } else {
                if v >= script_sig.len() as u64 {
                    return Err(TransactionError::EndOfStream);
                }
                SignatureHash::from_byte(&script_sig[v as usize])
            }
        };
        let signed: bool = script_sig.len() > 0;
        let outpoint = Outpoint {
            reverse_transaction_id: txid,
            index: vin,
            amount: None,
            script_pub_key: None,
            redeem_script: None,
            address: None,
        };
        let result = Self {
            outpoint,
            script_sig,
            sequence,
            sighash_code,
            witnesses: Vec::new(),
            is_signed: signed,
            additional_witness: None,
            witness_script_data: None,
        };
        proof {
            let d = data@;
            crate::encoding::lemma_pow256_values();
            lemma_le_bytes_of_val(d.subrange(pos + 32, pos + 36));
            assert(outpoint_wire(result.outpoint) =~= d.subrange(pos as int, pos + 36));
            if result.script_sig@.len() == 0 {
                assert(vli(0) =~= seq![0u8]);
                assert(input_script_slot(result, true) =~= script_field(
                    result.script_sig@,
                ));
            }
            assert(input_ser(result, !result.is_signed) =~= d.subrange(
                pos as int,
                p3 as int,
            ));
        }
        Ok((result, p3))
    }
}

impl BitcoinTransactionOutput {
    /// Builds an output paying `amount` to `address`.
    pub fn new(address: &BitcoinAddress, amount: BitcoinAmount) -> (r: Result<
        Self,
        TransactionError,
    >)
        requires
            address.wf(),
        ensures
            r matches Ok(o) && o.amount == amount && o.script_pub_key@
                == address_script_pubkey(*address),
    {
        let script_pub_key = match create_script_pub_key(address) {
            Ok(s) => s,
            Err(e) => {
                return Err(e);
            },
        };
        Ok(Self { amount, script_pub_key })
    }

    /// Parses an output: the amount, then the scriptPubKey.
    pub fn read(data: &Vec<u8>, pos: usize) -> (r: Result<(Self, usize), TransactionError>)
        ensures
            r is Ok <==> output_read_ok(data@, pos as int),
            r matches Ok(t) ==> pos <= t.1 <= data@.len() && output_ser(t.0)
                == data@.subrange(pos as int, t.1 as int) && t.0.amount.wf() && t.1
                == output_read_end(data@, pos as int),
    {
        let n: usize = data.len();
        if pos > n || n - pos < 8 {
            return Err(TransactionError::EndOfStream);
        }
        let raw_amount: u64 = read_le_bytes(data, pos, 8);
        let amount = match BitcoinAmount::from_satoshi(raw_amount as i64) {
            Ok(a) => a,
            Err(e) => {
                return Err(TransactionError::AmountError(e));
            },
        };
        let (script_pub_key, p2) = match BitcoinVector::read_byte_vector(data, pos + 8) {
            Ok(t) => t,
            Err(e) => {
                return Err(e);
            },
        };
        let result = Self { amount, script_pub_key };
        proof {
            crate::encoding::lemma_pow256_values();
            lemma_le_bytes_of_val(data@.subrange(pos as int, pos + 8));
            assert((raw_amount as i64) as u64 == raw_amount) by (bit_vector);
            assert((result.amount.0 as u64) == raw_amount);
            assert(output_ser(result) =~= data@.subrange(pos as int, p2 as int));
        }
        Ok((result, p2))
    }

    /// Serializes the output: the amount, then the scriptPubKey.
    pub fn serialize(&self) -> (r: Result<Vec<u8>, TransactionError>)
        ensures
            r matches Ok(v) && v@ == output_ser(*self),
    {
        let mut out: Vec<u8> = Vec::new();
        proof {
            crate::encoding::lemma_pow256_values();
        }
        append_le_bytes(&mut out, self.amount.0 as u64, 8);
        let prefix = match variable_length_integer(self.script_pub_key.len() as u64) {
            Ok(v) => v,
            Err(e) => {
                return Err(e);
            },
        };
        crate::address::append_bytes(&mut out, &prefix);
        crate::address::append_bytes(&mut out, &self.script_pub_key);
        proof {
            assert(out@ =~= output_ser(*self));
        }
        Ok(out)
    }
}


/// The position after `n` inputs starting at `pos`, if all can be read.
pub open spec fn inputs_parse_end(d: Seq<u8>, pos: int, n: nat) -> Option<int>
    decreases n,
{
    if n == 0 {
        Some(pos)
    } else if input_read_ok(d, pos) {
        inputs_parse_end(d, input_read_end(d, pos), (n - 1) as nat)
    } else {
        None
    }
}

/// The position after `n` outputs starting at `pos`, if all can be read.
pub open spec fn outputs_parse_end(d: Seq<u8>, pos: int, n: nat) -> Option<int>
    decreases n,
{
    if n == 0 {
        Some(pos)
    } else if output_read_ok(d, pos) {
        outputs_parse_end(d, output_read_end(d, pos), (n - 1) as nat)
    } else {
        None
    }
}

/// The position after `n` witness items starting at `pos`.
pub open spec fn witness_items_parse_end(d: Seq<u8>, pos: int, n: nat) -> Option<int>
    decreases n,
{
    if n == 0 {
        Some(pos)
    } else {
        match byte_vector_end(d, pos) {
            Some(q) => witness_items_parse_end(d, q, (n - 1) as nat),
            None => None,
        }
    }
}

/// The position after one witness stack (an item count, then its items).
pub open spec fn witness_stack_parse_end(d: Seq<u8>, pos: int) -> Option<int> {
    match vli_parse(d, pos) {
        Ok((m, p)) => witness_items_parse_end(d, p, m as nat),
        Err(_) => None,
    }
}

/// The position after `k` witness stacks starting at `pos`.
pub open spec fn witness_stacks_parse_end(d: Seq<u8>, pos: int, k: nat) -> Option<int>
    decreases k,
{
    if k == 0 {
        Some(pos)
    } else {
        match witness_stack_parse_end(d, pos) {
            Some(q) => witness_stacks_parse_end(d, q, (k - 1) as nat),
            None => None,
        }
    }
}

/// The tail of a transaction parse after its inputs: the outputs, the
/// witness stacks when flagged, and the four lock-time bytes.
pub open spec fn tx_tail_parse_end(d: Seq<u8>, pos: int, n_inputs: nat, segwit: bool) -> Option<
    int,
> {
    match vli_parse(d, pos) {
        Ok((m, q)) => match outputs_parse_end(d, q, m as nat) {
            Some(after_outputs) => {
                let after_witness = if segwit {
                    witness_stacks_parse_end(d, after_outputs, n_inputs)
                } else {
                    Some(after_outputs)
                };
                match after_witness {
                    Some(aw) => if aw + 4 <= d.len() {
                        Some(aw + 4)
                    } else {
                        None
                    },
                    None => None,
                }
            },
            None => None,
        },
        Err(_) => None,
    }
}

/// Where the head of a transaction parse ends: the version and the inputs
/// (re-read behind the marker and flag when the first count is zero),
/// yielding the position, the input count, and the segwit flag.
pub open spec fn tx_head_parse(d: Seq<u8>, pos: int) -> Option<(int, nat, bool)> {
    if pos + 4 > d.len() {
        None
    } else {
        match vli_parse(d, pos + 4) {
            Ok((n1, p1)) => match inputs_parse_end(d, p1, n1 as nat) {
                Some(after1) => if n1 == 0 {
                    if after1 >= d.len() || d[after1] != 1 {
                        None
                    } else {
                        match vli_parse(d, after1 + 1) {
                            Ok((n2, p2)) => match inputs_parse_end(d, p2, n2 as nat) {
                                Some(after2) => Some((after2, n2 as nat, true)),
                                None => None,
                            },
                            Err(_) => None,
                        }
                    }
                } else {
                    Some((after1, n1 as nat, false))
                },
                None => None,
            },
            Err(_) => None,
        }
    }
}

/// Where a whole transaction parse starting at `pos` ends, if it succeeds:
/// the head, then the tail.
pub open spec fn tx_parse_end(d: Seq<u8>, pos: int) -> Option<int> {
    match tx_head_parse(d, pos) {
        Some((after, n_inputs, segwit)) => tx_tail_parse_end(d, after, n_inputs, segwit),
        None => None,
    }
}

/// A failed count or input list makes the whole parse fail.
proof fn lemma_tx_parse_none_inputs(d: Seq<u8>, pos: int)
    requires
        pos + 4 <= d.len(),
        !(match vli_parse(d, pos + 4) {
            Ok((n, p)) => inputs_parse_end(d, p, n as nat) is Some,
            Err(_) => false,
        }),
    ensures
        tx_parse_end(d, pos) is None,
{
}

/// A missing or wrong segwit flag byte makes the whole parse fail.
proof fn lemma_tx_parse_none_flag(d: Seq<u8>, pos: int, p1: int)
    requires
        pos + 4 <= d.len(),
        vli_parse(d, pos + 4) == Ok::<(int, int), TransactionError>((0, p1)),
        p1 >= d.len() || d[p1] != 1,
    ensures
        tx_parse_end(d, pos) is None,
{
    assert(inputs_parse_end(d, p1, 0) == Some(p1));
}

/// A failed re-read of the true input list makes the whole parse fail.
proof fn lemma_tx_parse_none_second(d: Seq<u8>, pos: int, p1: int)
    requires
        pos + 4 <= d.len(),
        vli_parse(d, pos + 4) == Ok::<(int, int), TransactionError>((0, p1)),
        p1 < d.len(),
        d[p1] == 1,
        !(match vli_parse(d, p1 + 1) {
            Ok((n, p)) => inputs_parse_end(d, p, n as nat) is Some,
            Err(_) => false,
        }),
    ensures
        tx_parse_end(d, pos) is None,
{
    assert(inputs_parse_end(d, p1, 0) == Some(p1));
}

/// With the inputs read, the whole parse reduces to its tail.
proof fn lemma_tx_parse_tail(d: Seq<u8>, pos: int, n1: int, p1: int, after1: int)
    requires
        pos + 4 <= d.len(),
        vli_parse(d, pos + 4) == Ok::<(int, int), TransactionError>((n1, p1)),
        n1 != 0,
        inputs_parse_end(d, p1, n1 as nat) == Some(after1),
    ensures
        tx_parse_end(d, pos) == tx_tail_parse_end(d, after1, n1 as nat, false),
{
}

/// With the marker, flag, and re-read inputs behind, the whole parse
/// reduces to its flagged tail.
proof fn lemma_tx_parse_tail_segwit(
    d: Seq<u8>,
    pos: int,
    p1: int,
    n2: int,
    p2: int,
    after2: int,
)
    requires
        pos + 4 <= d.len(),
        vli_parse(d, pos + 4) == Ok::<(int, int), TransactionError>((0, p1)),
        p1 < d.len(),
        d[p1] == 1,
        vli_parse(d, p1 + 1) == Ok::<(int, int), TransactionError>((n2, p2)),
        inputs_parse_end(d, p2, n2 as nat) == Some(after2),
    ensures
        tx_parse_end(d, pos) == tx_tail_parse_end(d, after2, n2 as nat, true),
{
    assert(inputs_parse_end(d, p1, 0) == Some(p1));
}

/// With the outputs read, the tail reduces to its witness-and-locktime
/// residual.
proof fn lemma_tx_tail_residual(
    d: Seq<u8>,
    tail_pos: int,
    n_in: nat,
    segwit: bool,
    after_outputs: int,
)
    requires
        (match vli_parse(d, tail_pos) {
            Ok((m, q)) => outputs_parse_end(d, q, m as nat) == Some(after_outputs),
            Err(_) => false,
        }),
    ensures
        tx_tail_parse_end(d, tail_pos, n_in, segwit) == (match (if segwit {
            witness_stacks_parse_end(d, after_outputs, n_in)
        } else {
            Some(after_outputs)
        }) {
            Some(aw) => if aw + 4 <= d.len() {
                Some(aw + 4)
            } else {
                None::<int>
            },
            None => None::<int>,
        }),
{
}

/// A failed output count or list makes the tail fail.
proof fn lemma_tx_tail_none(d: Seq<u8>, tail_pos: int, n_in: nat, segwit: bool)
    requires
        !(match vli_parse(d, tail_pos) {
            Ok((m, q)) => outputs_parse_end(d, q, m as nat) is Some,
            Err(_) => false,
        }),
    ensures
        tx_tail_parse_end(d, tail_pos, n_in, segwit) is None,
{
}

/// Fresh inputs (no address, no resolution data) always serialize.
pub proof fn lemma_fresh_inputs_ser_ok(s: Seq<BitcoinTransactionInput>)
    requires
        inputs_fresh(s),
    ensures
        inputs_ser_ok(s),
    decreases s.len(),
{
    if s.len() > 0 {
        assert(input_fresh(s[0]));
        assert(inputs_fresh(s.drop_first())) by {
            assert(forall|k: int|
                0 <= k < s.drop_first().len() ==> s.drop_first()[k] == s[k + 1]);
        }
        lemma_fresh_inputs_ser_ok(s.drop_first());
    }
}

/// Reads a counted vector of transaction inputs.
fn read_input_vector(data: &Vec<u8>, pos: usize) -> (r: Result<
    (Vec<BitcoinTransactionInput>, usize),
    TransactionError,
>)
    ensures
        r is Ok <==> (match vli_parse(data@, pos as int) {
            Ok((n, p)) => inputs_parse_end(data@, p, n as nat) is Some,
            Err(_) => false,
        }),
        r matches Ok(t) ==> pos <= t.1 <= data@.len() && vli(t.0@.len() as int) + inputs_ser(
            t.0@,
        ) == data@.subrange(pos as int, t.1 as int) && inputs_fresh(t.0@) && (
        match vli_parse(data@, pos as int) {
            Ok((n, p)) => Some(t.1 as int) == inputs_parse_end(data@, p, n as nat)
                && t.0@.len() == n,
            Err(_) => false,
        }),
{
    let (count, start) = match read_variable_length_integer(data, pos) {
        Ok(t) => t,
        Err(e) => {
            return Err(e);
        },
    };
    let mut at: usize = start;
    let mut inputs: Vec<BitcoinTransactionInput> = Vec::new();
    let mut i: u64 = 0;
    proof {
        assert(inputs_ser(inputs@) == Seq::<u8>::empty());
        assert(vli(count as int) + inputs_ser(inputs@) =~= data@.subrange(
            pos as int,
            at as int,
        ));
    }
    while i < count
        invariant
            i == inputs@.len(),
            i <= count,
            pos <= at <= data@.len(),
            vli(count as int) + inputs_ser(inputs@) == data@.subrange(pos as int, at as int),
            inputs_fresh(inputs@),
            vli_parse(data@, pos as int) == Ok::<(int, int), TransactionError>(
                (count as int, start as int),
            ),
            inputs_parse_end(data@, start as int, count as nat) == inputs_parse_end(
                data@,
                at as int,
                (count - i) as nat,
            ),
        decreases count - i,
    {
        let (inp, p) = match BitcoinTransactionInput::read(data, at) {
            Ok(t) => t,
            Err(e) => {
                proof {
                    assert(count - i >= 1);
                    assert(!input_read_ok(data@, at as int));
                    assert(inputs_parse_end(data@, at as int, (count - i) as nat) is None);
                    assert(inputs_parse_end(data@, start as int, count as nat) is None);
                }
                return Err(e);
            },
        };
        proof {
            lemma_inputs_ser_snoc(inputs@, inp);
            assert(data@.subrange(pos as int, p as int) =~= data@.subrange(
                pos as int,
                at as int,
            ) + data@.subrange(at as int, p as int));
            assert(vli(count as int) + inputs_ser(inputs@ + seq![inp]) =~= data@.subrange(
                pos as int,
                p as int,
            ));
        }
        let ghost prev = inputs@;
        inputs.push(inp);
        proof {
            assert(inputs@ =~= prev + seq![inp]);
            assert(inputs_fresh(inputs@)) by {
                assert(forall|k: int|
                    0 <= k < prev.len() ==> inputs@[k] == prev[k]);
                assert(inputs@[prev.len() as int] == inp);
            }
        }
        at = p;
        i = i + 1;
    }
    Ok((inputs, at))
}

/// Reads a counted vector of transaction outputs.
fn read_output_vector(data: &Vec<u8>, pos: usize) -> (r: Result<
    (Vec<BitcoinTransactionOutput>, usize),
    TransactionError,
>)
    ensures
        r is Ok <==> (match vli_parse(data@, pos as int) {
            Ok((n, p)) => outputs_parse_end(data@, p, n as nat) is Some,
            Err(_) => false,
        }),
        r matches Ok(t) ==> pos <= t.1 <= data@.len() && vli(t.0@.len() as int) + outputs_ser(
            t.0@,
        ) == data@.subrange(pos as int, t.1 as int) && (match vli_parse(
            data@,
            pos as int,
        ) {
            Ok((n, p)) => Some(t.1 as int) == outputs_parse_end(data@, p, n as nat),
            Err(_) => false,
        }),
{
    let (count, start) = match read_variable_length_integer(data, pos) {
        Ok(t) => t,
        Err(e) => {
            return Err(e);
        },
    };
    let mut at: usize = start;
    let mut outputs: Vec<BitcoinTransactionOutput> = Vec::new();
    let mut i: u64 = 0;
    proof {
        assert(outputs_ser(outputs@) == Seq::<u8>::empty());
        assert(vli(count as int) + outputs_ser(outputs@) =~= data@.subrange(
            pos as int,
            at as int,
        ));
    }
    while i < count
        invariant
            i == outputs@.len(),
            i <= count,
            pos <= at <= data@.len(),
            vli(count as int) + outputs_ser(outputs@) == data@.subrange(
                pos as int,
                at as int,
            ),
            vli_parse(data@, pos as int) == Ok::<(int, int), TransactionError>(
                (count as int, start as int),
            ),
            outputs_parse_end(data@, start as int, count as nat) == outputs_parse_end(
                data@,
                at as int,
                (count - i) as nat,
            ),
        decreases count - i,
    {
        let (outp, p) = match BitcoinTransactionOutput::read(data, at) {
            Ok(t) => t,
            Err(e) => {
                proof {
                    assert(!output_read_ok(data@, at as int));
                    assert(outputs_parse_end(data@, start as int, count as nat) is None);
                }
                return Err(e);
            },
        };
        proof {
            lemma_outputs_ser_snoc(outputs@, outp);
            assert(data@.subrange(pos as int, p as int) =~= data@.subrange(
                pos as int,
                at as int,
            ) + data@.subrange(at as int, p as int));
            assert(vli(count as int) + outputs_ser(outputs@ + seq![outp]) =~= data@.subrange(
                pos as int,
                p as int,
            ));
        }
        let ghost prev = outputs@;
        outputs.push(outp);
        proof {
            assert(outputs@ =~= prev + seq![outp]);
        }
        at = p;
        i = i + 1;
    }
    Ok((outputs, at))
}

/// Reads one input's witness stack: an item count, then prefixed items.
fn read_witness_stack(data: &Vec<u8>, pos: usize) -> (r: Result<
    (Vec<Vec<u8>>, usize),
    TransactionError,
>)
    ensures
        r is Ok <==> witness_stack_parse_end(data@, pos as int) is Some,
        r matches Ok(t) ==> pos <= t.1 <= data@.len() && vli(t.0@.len() as int) + concat_bytes(
            t.0.deep_view(),
        ) == data@.subrange(pos as int, t.1 as int) && (forall|k: int|
            0 <= k < t.0@.len() ==> (#[trigger] t.0.deep_view()[k]).len() >= 1) && Some(
            t.1 as int,
        ) == witness_stack_parse_end(data@, pos as int),
{
    let (count, start) = match read_variable_length_integer(data, pos) {
        Ok(t) => t,
        Err(e) => {
            return Err(e);
        },
    };
    let mut at: usize = start;
    let mut items: Vec<Vec<u8>> = Vec::new();
    let mut i: u64 = 0;
    proof {
        assert(concat_bytes(items.deep_view()) == Seq::<u8>::empty());
        assert(vli(count as int) + concat_bytes(items.deep_view()) =~= data@.subrange(
            pos as int,
            at as int,
        ));
    }
    while i < count
        invariant
            i == items@.len(),
            i <= count,
            pos <= at <= data@.len(),
            vli(count as int) + concat_bytes(items.deep_view()) == data@.subrange(
                pos as int,
                at as int,
            ),
            forall|k: int| 0 <= k < items@.len() ==> (#[trigger] items.deep_view()[k]).len()
                >= 1,
            vli_parse(data@, pos as int) == Ok::<(int, int), TransactionError>(
                (count as int, start as int),
            ),
            witness_items_parse_end(data@, start as int, count as nat)
                == witness_items_parse_end(data@, at as int, (count - i) as nat),
        decreases count - i,
    {
        let (item, p) = match BitcoinVector::read_witness_item(data, at) {
            Ok(t) => t,
            Err(e) => {
                proof {
                    assert(byte_vector_end(data@, at as int) is None);
                    assert(witness_items_parse_end(data@, start as int, count as nat)
                        is None);
                }
                return Err(e);
            },
        };
        proof {
            lemma_concat_bytes_snoc(items.deep_view(), item@);
            assert(data@.subrange(pos as int, p as int) =~= data@.subrange(
                pos as int,
                at as int,
            ) + data@.subrange(at as int, p as int));
            assert(vli(count as int) + concat_bytes(items.deep_view() + seq![item@])
                =~= data@.subrange(pos as int, p as int));
        }
        let ghost prev = items.deep_view();
        items.push(item);
        proof {
            assert(items.deep_view() =~~= prev + seq![item@]);
        }
        at = p;
        i = i + 1;
    }
    Ok((items, at))
}

/// How a parsed input changes once its witness stack is attached: the wire
/// fields stay, an empty stack leaves the signing marks alone, and a
/// nonempty stack marks the input signed with the sighash drawn from the
/// last byte of its first item.
pub open spec fn witness_marked(
    oi: BitcoinTransactionInput,
    ni: BitcoinTransactionInput,
) -> bool {
    &&& ni.outpoint == oi.outpoint
    &&& ni.script_sig == oi.script_sig
    &&& ni.sequence == oi.sequence
    &&& ni.additional_witness == oi.additional_witness
    &&& ni.witness_script_data == oi.witness_script_data
    &&& (ni.witnesses@.len() == 0 ==> ni.sighash_code == oi.sighash_code && ni.is_signed
        == oi.is_signed)
    &&& (ni.witnesses@.len() > 0 ==> ni.is_signed && ni.sighash_code == sighash_from_byte(
        ni.witnesses.deep_view()[0].last(),
    ))
}

/// Reads one witness stack per input, attaching each stack to its input
/// and marking inputs with nonempty stacks signed; the inputs' wire bytes
/// are unchanged by the attachment.
fn read_witness_section(
    data: &Vec<u8>,
    start: usize,
    inputs: Vec<BitcoinTransactionInput>,
) -> (r: Result<(Vec<BitcoinTransactionInput>, usize), TransactionError>)
    requires
        start <= data@.len(),
        inputs_fresh(inputs@),
    ensures
        r is Ok <==> witness_stacks_parse_end(data@, start as int, inputs@.len() as nat)
            is Some,
        r matches Ok(t) ==> ({
            &&& start <= t.1 <= data@.len()
            &&& Some(t.1 as int) == witness_stacks_parse_end(
                data@,
                start as int,
                inputs@.len() as nat,
            )
            &&& t.0@.len() == inputs@.len()
            &&& inputs_ser(t.0@) == inputs_ser(inputs@)
            &&& inputs_ser_ok(t.0@)
            &&& witnesses_ser(t.0@) == data@.subrange(start as int, t.1 as int)
            &&& (forall|k: int|
                0 <= k < t.0@.len() ==> witness_marked(inputs@[k], #[trigger] t.0@[k]))
        }),
{
    let ghost inputs_snapshot = inputs@;
    let mut remaining = inputs;
    let mut at: usize = start;
    let mut patched: Vec<BitcoinTransactionInput> = Vec::new();
    proof {
        assert(data@.subrange(start as int, at as int) =~= Seq::<u8>::empty());
        assert(inputs_ser(patched@) == Seq::<u8>::empty());
        assert(inputs_ser(inputs_snapshot.take(0)) =~= Seq::<u8>::empty()) by {
            assert(inputs_snapshot.take(0) =~= Seq::<BitcoinTransactionInput>::empty());
        }
        assert(witnesses_ser(patched@) == Seq::<u8>::empty());
        assert(witness_stacks_parse_end(
            data@,
            start as int,
            inputs_snapshot.len() as nat,
        ) == witness_stacks_parse_end(data@, at as int, remaining@.len() as nat));
    }
            while remaining.len() > 0
                invariant
                    inputs_snapshot == inputs@,
                    patched@.len() + remaining@.len() == inputs_snapshot.len(),
                    remaining@ == inputs_snapshot.skip(patched@.len() as int),
                    inputs_fresh(inputs_snapshot),
                    start <= at <= data@.len(),
                    inputs_ser(patched@) == inputs_ser(
                        inputs_snapshot.take(patched@.len() as int),
                    ),
                    inputs_ser_ok(patched@),
                    forall|k: int| 0 <= k < patched@.len() ==> (#[trigger] patched@[k]).outpoint.address is None,
                    forall|k: int|
                        0 <= k < patched@.len() ==> witness_marked(
                            inputs_snapshot[k],
                            #[trigger] patched@[k],
                        ),
                    witnesses_ser(patched@) == data@.subrange(start as int, at as int),
                    witness_stacks_parse_end(
                        data@,
                        start as int,
                        inputs_snapshot.len() as nat,
                    ) == witness_stacks_parse_end(data@, at as int, remaining@.len() as nat),
                decreases remaining@.len(),
            {
                let ghost k = patched@.len() as int;
                let inp = remaining.remove(0);
                proof {
                    assert(inputs_snapshot.skip(k)[0] == inputs_snapshot[k]);
                    assert(inp == inputs_snapshot[k]);
                    assert(input_fresh(inp));
                    assert(remaining@ =~= inputs_snapshot.skip(k + 1)) by {
                        assert(remaining@ =~= inputs_snapshot.skip(k).drop_first());
                    }
                }
                let (witness, p) = match read_witness_stack(data, at) {
                    Ok(t) => t,
                    Err(e) => {
                        proof {
                            assert(witness_stack_parse_end(data@, at as int) is None);
                            assert(witness_stacks_parse_end(
                                data@,
                                at as int,
                                (remaining@.len() + 1) as nat,
                            ) is None);
                        }
                        return Err(e);
                    },
                };
                let mut sighash_code = inp.sighash_code;
                let mut signed = inp.is_signed;
                if witness.len() > 0 {
                    let first_len: usize = witness[0].len();
                    proof {
                        assert(witness.deep_view()[0] == witness@[0]@);
                    }
                    sighash_code = SignatureHash::from_byte(&witness[0][first_len - 1]);
                    signed = true;
                }
                let new_inp = BitcoinTransactionInput {
                    outpoint: inp.outpoint,
                    script_sig: inp.script_sig,
                    sequence: inp.sequence,
                    sighash_code,
                    witnesses: witness,
                    is_signed: signed,
                    additional_witness: inp.additional_witness,
                    witness_script_data: inp.witness_script_data,
                };
                proof {
                    assert(input_script_slot(new_inp, !new_inp.is_signed)
                        =~= input_script_slot(inp, !inp.is_signed));
                    assert(input_ser(new_inp, !new_inp.is_signed) =~= input_ser(
                        inp,
                        !inp.is_signed,
                    ));
                    lemma_inputs_ser_snoc(patched@, new_inp);
                    lemma_inputs_ser_snoc(inputs_snapshot.take(k), inputs_snapshot[k]);
                    assert(inputs_snapshot.take(k + 1) =~= inputs_snapshot.take(k) + seq![
                        inputs_snapshot[k],
                    ]);
                    lemma_witnesses_ser_snoc(patched@, new_inp);
                    assert(witness_ser(new_inp) =~= data@.subrange(at as int, p as int));
                    assert(data@.subrange(start as int, p as int) =~= data@.subrange(
                        start as int,
                        at as int,
                    ) + data@.subrange(at as int, p as int));
                }
                let ghost prev = patched@;
                patched.push(new_inp);
                proof {
                    assert(patched@ =~= prev + seq![new_inp]);
                    assert(forall|j: int|
                        0 <= j < prev.len() ==> patched@[j] == prev[j]);
                    assert(witness_marked(inputs_snapshot[k], new_inp));
                }
                at = p;
            }
            proof {
                assert(inputs_snapshot.take(patched@.len() as int) =~= inputs_snapshot);
            }
    proof {
        assert(inputs_snapshot.take(patched@.len() as int) =~= inputs_snapshot);
        assert(witness_stacks_parse_end(data@, at as int, 0) == Some::<int>(at as int));
    }
    Ok((patched, at))
}

/// Reassembles a parsed transaction's serialization from its consumed
/// segments.
proof fn lemma_read_at_assembly(
    d: Seq<u8>,
    pos: int,
    after_inputs: int,
    witness_start: int,
    at: int,
    end: int,
    result: BitcoinTransactionParameters,
)
    requires
        0 <= pos,
        pos + 4 <= after_inputs <= witness_start <= at,
        end == at + 4 <= d.len(),
        le_bytes(result.version as int, 4) == d.subrange(pos, pos + 4),
        le_bytes(result.lock_time as int, 4) == d.subrange(at, end),
        result.segwit_flag ==> after_inputs >= pos + 6 && d.subrange(pos + 4, pos + 5)
            == seq![0x00u8] && d[pos + 5] == 0x01 && vli(result.inputs@.len() as int)
            + inputs_ser(result.inputs@) == d.subrange(pos + 6, after_inputs)
            && witnesses_ser(result.inputs@) == d.subrange(witness_start, at),
        !result.segwit_flag ==> vli(result.inputs@.len() as int) + inputs_ser(
            result.inputs@,
        ) == d.subrange(pos + 4, after_inputs) && witness_start == at,
        vli(result.outputs@.len() as int) + outputs_ser(result.outputs@) == d.subrange(
            after_inputs,
            witness_start,
        ),
    ensures
        tx_ser(result) == d.subrange(pos, end),
{
    if result.segwit_flag {
        assert(d.subrange(pos + 4, pos + 6) =~= seq![0x00u8, 0x01u8]) by {
            assert(d.subrange(pos + 4, pos + 5) =~= seq![0x00u8]);
            assert(d[pos + 5] == 0x01);
        }
        assert(d.subrange(pos, end) =~= d.subrange(pos, pos + 4) + d.subrange(
            pos + 4,
            pos + 6,
        ) + d.subrange(pos + 6, after_inputs) + d.subrange(after_inputs, witness_start)
            + d.subrange(witness_start, at) + d.subrange(at, end));
        assert(tx_ser(result) =~= d.subrange(pos, end));
    } else {
        assert(d.subrange(pos, end) =~= d.subrange(pos, pos + 4) + d.subrange(
            pos + 4,
            after_inputs,
        ) + d.subrange(after_inputs, witness_start) + d.subrange(at, end));
        assert(tx_ser(result) =~= d.subrange(pos, end));
    }
}

impl BitcoinTransactionParameters {
    /// Parses a transaction at `pos`: the version, the inputs (re-read after
    /// the segwit marker when flagged), the outputs, the witness stacks when
    /// flagged, and the lock time.
    #[verifier::rlimit(100)]
    pub fn read_at(data: &Vec<u8>, pos: usize) -> (r: Result<
        (Self, usize),
        TransactionError,
    >)
        ensures
            r is Ok <==> tx_parse_end(data@, pos as int) is Some,
            r matches Ok(t) ==> pos <= t.1 <= data@.len() && tx_ser(t.0) == data@.subrange(
                pos as int,
                t.1 as int,
            ) && tx_ser_ok(t.0) && Some(t.1 as int) == tx_parse_end(data@, pos as int),
            r matches Ok(t) ==> (forall|k: int|
                0 <= k < t.0.inputs@.len() ==> ((#[trigger] t.0.inputs@[k]).witnesses@.len()
                    > 0 ==> t.0.inputs@[k].is_signed && t.0.inputs@[k].sighash_code
                    == sighash_from_byte(t.0.inputs@[k].witnesses.deep_view()[0].last()))),
            (match vli_parse(data@, pos + 4) {
                Ok((n1, p1)) => (pos + 4 <= data@.len() && n1 == 0 && p1 < data@.len()
                    && data@[p1] != 1) ==> r == Err::<(Self, usize), TransactionError>(
                    TransactionError::InvalidSegwitFlag(data@[p1] as usize),
                ),
                Err(_) => true,
            }),
    {
        let n: usize = data.len();
        if pos > n || n - pos < 4 {
            proof {
                assert(tx_head_parse(data@, pos as int) is None);
            }
            return Err(TransactionError::EndOfStream);
        }
        let version: u32 = read_le_bytes(data, pos, 4) as u32;
        let (first_inputs, after_first) = match read_input_vector(data, pos + 4) {
            Ok(t) => t,
            Err(e) => {
                proof {
                    match vli_parse(data@, pos + 4) {
                        Ok((n1, p1)) => {
                            if n1 == 0 {
                                assert(inputs_parse_end(data@, p1, 0) == Some(p1));
                                assert(false);
                            }
                        },
                        Err(_) => {},
                    }
                    lemma_tx_parse_none_inputs(data@, pos as int);
                }
                return Err(e);
            },
        };
        let mut inputs = first_inputs;
        let mut at: usize = after_first;
        let mut segwit_flag: bool = false;
        let ghost inputs_start = pos + 4;
        if inputs.len() == 0 {
            proof {
                assert(inputs_parse_end(data@, after_first as int, 0) == Some::<int>(
                    after_first as int,
                ));
            }
            if at >= n {
                proof {
                    lemma_tx_parse_none_flag(data@, pos as int, at as int);
                }
                return Err(TransactionError::EndOfStream);
            }
            let flag: u8 = data[at];
            if flag != 1 {
                proof {
                    lemma_tx_parse_none_flag(data@, pos as int, at as int);
                }
                return Err(TransactionError::InvalidSegwitFlag(flag as usize));
            }
            at = at + 1;
            let (second_inputs, after_second) = match read_input_vector(data, at) {
                Ok(t) => t,
                Err(e) => {
                    proof {
                        lemma_tx_parse_none_second(data@, pos as int, (at - 1) as int);
                    }
                    return Err(e);
                },
            };
            proof {
                assert(vli(0) =~= seq![0u8]);
                assert(data@.subrange(inputs_start, after_first as int) =~= seq![0u8]);
                assert(after_first == pos + 5);
            }
            inputs = second_inputs;
            at = after_second;
            segwit_flag = true;
        }
        let ghost inputs_snapshot = inputs@;
        let ghost after_inputs = at;
        proof {
            match vli_parse(data@, pos + 4) {
                Ok((n1, p1)) => {
                    if segwit_flag {
                        match vli_parse(data@, p1 + 1) {
                            Ok((n2, p2)) => {
                                lemma_tx_parse_tail_segwit(
                                    data@,
                                    pos as int,
                                    p1,
                                    n2,
                                    p2,
                                    after_inputs as int,
                                );
                            },
                            Err(_) => {
                                assert(false);
                            },
                        }
                    } else {
                        lemma_tx_parse_tail(
                            data@,
                            pos as int,
                            n1,
                            p1,
                            after_inputs as int,
                        );
                    }
                },
                Err(_) => {
                    assert(false);
                },
            }
            assert(tx_parse_end(data@, pos as int) == tx_tail_parse_end(
                data@,
                after_inputs as int,
                inputs_snapshot.len() as nat,
                segwit_flag,
            ));
        }
        let (outputs, after_outputs) = match read_output_vector(data, at) {
            Ok(t) => t,
            Err(e) => {
                proof {
                    lemma_tx_tail_none(
                        data@,
                        after_inputs as int,
                        inputs_snapshot.len() as nat,
                        segwit_flag,
                    );
                }
                return Err(e);
            },
        };
        at = after_outputs;
        let ghost witness_start = at;
        proof {
            lemma_tx_tail_residual(
                data@,
                after_inputs as int,
                inputs_snapshot.len() as nat,
                segwit_flag,
                after_outputs as int,
            );
            assert(witness_stacks_parse_end(data@, witness_start as int, 0) == Some::<int>(
                witness_start as int,
            ));
        }
        if segwit_flag {
            let (patched, new_at) = match read_witness_section(data, at, inputs) {
                Ok(t) => t,
                Err(e) => {
                    proof {
                        assert(witness_stacks_parse_end(
                            data@,
                            witness_start as int,
                            inputs_snapshot.len() as nat,
                        ) is None);
                        assert(tx_parse_end(data@, pos as int) is None);
                    }
                    return Err(e);
                },
            };
            inputs = patched;
            at = new_at;
        } else {
            proof {
                lemma_fresh_inputs_ser_ok(inputs_snapshot);
            }
        }
        if n - at < 4 {
            proof {
                assert(tx_parse_end(data@, pos as int) is None);
            }
            return Err(TransactionError::EndOfStream);
        }
        let lock_time: u32 = read_le_bytes(data, at, 4) as u32;
        let end: usize = at + 4;
        proof {
            assert(tx_parse_end(data@, pos as int) == Some::<int>(end as int));
        }
        let result = Self { version, inputs, outputs, lock_time, segwit_flag };
        proof {
            assert forall|k: int|
                0 <= k < result.inputs@.len() implies ((#[trigger] result.inputs@[k]).witnesses@.len()
                > 0 ==> result.inputs@[k].is_signed && result.inputs@[k].sighash_code
                == sighash_from_byte(
                result.inputs@[k].witnesses.deep_view()[0].last(),
            )) by {
                if segwit_flag {
                    assert(witness_marked(inputs_snapshot[k], result.inputs@[k]));
                } else {
                    assert(input_fresh(inputs_snapshot[k]));
                    assert(result.inputs@[k].witnesses@.len() == 0);
                }
            }
            let d = data@;
            crate::encoding::lemma_pow256_values();
            lemma_le_bytes_of_val(d.subrange(pos as int, pos + 4));
            lemma_le_bytes_of_val(d.subrange(at as int, end as int));
            assert(le_bytes(result.version as int, 4) =~= d.subrange(pos as int, pos + 4));
            assert(le_bytes(result.lock_time as int, 4) =~= d.subrange(
                at as int,
                end as int,
            ));
            if segwit_flag {
                assert(d.subrange(pos + 4, pos + 5) =~= seq![0x00u8]);
            }
            lemma_read_at_assembly(
                d,
                pos as int,
                after_inputs as int,
                witness_start as int,
                at as int,
                end as int,
                result,
            );
        }
        Ok((result, end))
    }

    /// Parses a transaction from the start of `data`, ignoring trailing
    /// bytes.
    pub fn read(data: &Vec<u8>) -> (r: Result<Self, TransactionError>)
        ensures
            r is Ok <==> tx_parse_end(data@, 0) is Some,
            r matches Ok(p) ==> tx_ser_ok(p) && ({
                let b = tx_ser(p);
                b.len() <= data@.len() && b == data@.take(b.len() as int)
            }),
    {
        match Self::read_at(data, 0) {
            Ok((p, end)) => {
                proof {
                    assert(data@.subrange(0, end as int) =~= data@.take(
                        data@.subrange(0, end as int).len() as int,
                    ));
                }
                Ok(p)
            },
            Err(e) => Err(e),
        }
    }
}

impl BitcoinTransaction {
    /// Wraps prepared transaction parameters.
    pub fn new(parameters: BitcoinTransactionParameters) -> (r: Result<
        Self,
        TransactionError,
    >)
        ensures
            r matches Ok(t) && t.parameters == parameters,
    {
        Ok(Self { parameters })
    }

    /// Parses a transaction from its wire bytes, ignoring trailing bytes.
    pub fn from_transaction_bytes(transaction: &Vec<u8>) -> (r: Result<
        Self,
        TransactionError,
    >)
        ensures
            r is Ok <==> tx_parse_end(transaction@, 0) is Some,
            r matches Ok(t) ==> tx_ser_ok(t.parameters) && ({
                let b = tx_ser(t.parameters);
                b.len() <= transaction@.len() && b == transaction@.take(b.len() as int)
            }),
    {
        match BitcoinTransactionParameters::read(transaction) {
            Ok(p) => Ok(Self { parameters: p }),
            Err(e) => Err(e),
        }
    }

    /// Serializes the transaction to its wire bytes.
    pub fn to_transaction_bytes(&self) -> (r: Result<Vec<u8>, TransactionError>)
        ensures
            tx_ser_ok(self.parameters) ==> (r matches Ok(v) && v@ == tx_ser(
                self.parameters,
            )),
            !tx_ser_ok(self.parameters) ==> r == Err::<Vec<u8>, TransactionError>(
                TransactionError::MissingOutpointScriptPublicKey,
            ),
    {
        let mut out: Vec<u8> = Vec::new();
        proof {
            crate::encoding::lemma_pow256_values();
        }
        append_le_bytes(&mut out, self.parameters.version as u64, 4);
        if self.parameters.segwit_flag {
            out.push(0x00);
            out.push(0x01);
        }
        let count_prefix = match variable_length_integer(self.parameters.inputs.len() as u64) {
            Ok(v) => v,
            Err(e) => {
                return Err(e);
            },
        };
        crate::address::append_bytes(&mut out, &count_prefix);
        let ghost header = out@;
        let num_inputs: usize = self.parameters.inputs.len();
        let mut i: usize = 0;
        proof {
            assert(inputs_ser(self.parameters.inputs@.take(0)) == Seq::<u8>::empty()) by {
                assert(self.parameters.inputs@.take(0) =~= Seq::<
                    BitcoinTransactionInput,
                >::empty());
            }
            assert(inputs_ser_ok(self.parameters.inputs@.take(0))) by {
                assert(self.parameters.inputs@.take(0) =~= Seq::<
                    BitcoinTransactionInput,
                >::empty());
            }
            assert(out@ =~= header + inputs_ser(self.parameters.inputs@.take(0)));
        }
        while i < num_inputs
            invariant
                i <= num_inputs,
                num_inputs == self.parameters.inputs@.len(),
                out@ == header + inputs_ser(self.parameters.inputs@.take(i as int)),
                inputs_ser_ok(self.parameters.inputs@.take(i as int)),
            decreases num_inputs - i,
        {
            let input = &self.parameters.inputs[i];
            let serialized = match input.serialize(!input.is_signed) {
                Ok(v) => v,
                Err(e) => {
                    proof {
                        lemma_prefix_not_ser_ok(self.parameters.inputs@, i as int);
                    }
                    return Err(e);
                },
            };
            proof {
                lemma_inputs_ser_snoc(
                    self.parameters.inputs@.take(i as int),
                    self.parameters.inputs@[i as int],
                );
                assert(self.parameters.inputs@.take(i + 1)
                    =~= self.parameters.inputs@.take(i as int) + seq![
                    self.parameters.inputs@[i as int],
                ]);
            }
            crate::address::append_bytes(&mut out, &serialized);
            proof {
                assert(out@ =~= header + inputs_ser(self.parameters.inputs@.take(i + 1)));
            }
            i = i + 1;
        }
        proof {
            assert(self.parameters.inputs@.take(num_inputs as int)
                =~= self.parameters.inputs@);
        }
        let out_prefix = match variable_length_integer(self.parameters.outputs.len() as u64) {
            Ok(v) => v,
            Err(e) => {
                return Err(e);
            },
        };
        crate::address::append_bytes(&mut out, &out_prefix);
        let ghost header2 = out@;
        let num_outputs: usize = self.parameters.outputs.len();
        let mut j: usize = 0;
        proof {
            assert(outputs_ser(self.parameters.outputs@.take(0)) == Seq::<u8>::empty()) by {
                assert(self.parameters.outputs@.take(0) =~= Seq::<
                    BitcoinTransactionOutput,
                >::empty());
            }
            assert(out@ =~= header2 + outputs_ser(self.parameters.outputs@.take(0)));
        }
        while j < num_outputs
            invariant
                j <= num_outputs,
                num_outputs == self.parameters.outputs@.len(),
                out@ == header2 + outputs_ser(self.parameters.outputs@.take(j as int)),
            decreases num_outputs - j,
        {
            let serialized = match self.parameters.outputs[j].serialize() {
                Ok(v) => v,
                Err(e) => {
                    return Err(e);
                },
            };
            proof {
                lemma_outputs_ser_snoc(
                    self.parameters.outputs@.take(j as int),
                    self.parameters.outputs@[j as int],
                );
                assert(self.parameters.outputs@.take(j + 1)
                    =~= self.parameters.outputs@.take(j as int) + seq![
                    self.parameters.outputs@[j as int],
                ]);
            }
            crate::address::append_bytes(&mut out, &serialized);
            proof {
                assert(out@ =~= header2 + outputs_ser(
                    self.parameters.outputs@.take(j + 1),
                ));
            }
            j = j + 1;
        }
        proof {
            assert(self.parameters.outputs@.take(num_outputs as int)
                =~= self.parameters.outputs@);
        }
        if self.parameters.segwit_flag {
            let ghost header3 = out@;
            let mut k: usize = 0;
            proof {
                assert(witnesses_ser(self.parameters.inputs@.take(0)) == Seq::<
                    u8,
                >::empty()) by {
                    assert(self.parameters.inputs@.take(0) =~= Seq::<
                        BitcoinTransactionInput,
                    >::empty());
                }
                assert(out@ =~= header3 + witnesses_ser(self.parameters.inputs@.take(0)));
            }
            while k < num_inputs
                invariant
                    k <= num_inputs,
                    num_inputs == self.parameters.inputs@.len(),
                    out@ == header3 + witnesses_ser(self.parameters.inputs@.take(k as int)),
                decreases num_inputs - k,
            {
                let input = &self.parameters.inputs[k];
                proof {
                    lemma_witnesses_ser_snoc(
                        self.parameters.inputs@.take(k as int),
                        self.parameters.inputs@[k as int],
                    );
                    assert(self.parameters.inputs@.take(k + 1)
                        =~= self.parameters.inputs@.take(k as int) + seq![
                        self.parameters.inputs@[k as int],
                    ]);
                }
                if input.witnesses.len() == 0 {
                    out.push(0x00);
                    proof {
                        assert(witness_ser(self.parameters.inputs@[k as int]) =~= seq![
                            0u8,
                        ]);
                        assert(out@ =~= header3 + witnesses_ser(
                            self.parameters.inputs@.take(k + 1),
                        ));
                    }
                } else {
                    let wit_prefix = match variable_length_integer(input.witnesses.len() as u64) {
                        Ok(v) => v,
                        Err(e) => {
                            return Err(e);
                        },
                    };
                    crate::address::append_bytes(&mut out, &wit_prefix);
                    let ghost witness_header = out@;
                    let num_items: usize = input.witnesses.len();
                    let mut m: usize = 0;
                    proof {
                        assert(concat_bytes(input.witnesses.deep_view().take(0)) == Seq::<
                            u8,
                        >::empty()) by {
                            assert(input.witnesses.deep_view().take(0) =~~= Seq::<
                                Seq<u8>,
                            >::empty());
                        }
                        assert(out@ =~= witness_header + concat_bytes(
                            input.witnesses.deep_view().take(0),
                        ));
                    }
                    while m < num_items
                        invariant
                            m <= num_items,
                            num_items == input.witnesses@.len(),
                            input == &self.parameters.inputs[k as int],
                            k < num_inputs == self.parameters.inputs@.len(),
                            out@ == witness_header + concat_bytes(
                                input.witnesses.deep_view().take(m as int),
                            ),
                        decreases num_items - m,
                    {
                        proof {
                            lemma_concat_bytes_snoc(
                                input.witnesses.deep_view().take(m as int),
                                input.witnesses.deep_view()[m as int],
                            );
                            assert(input.witnesses.deep_view().take(m + 1)
                                =~~= input.witnesses.deep_view().take(m as int) + seq![
                                input.witnesses.deep_view()[m as int],
                            ]);
                            assert(input.witnesses.deep_view()[m as int]
                                == input.witnesses@[m as int]@);
                        }
                        crate::address::append_bytes(&mut out, &input.witnesses[m]);
                        proof {
                            assert(out@ =~= witness_header + concat_bytes(
                                input.witnesses.deep_view().take(m + 1),
                            ));
                        }
                        m = m + 1;
                    }
                    proof {
                        assert(input.witnesses.deep_view().take(num_items as int)
                            =~~= input.witnesses.deep_view());
                        assert(out@ =~= header3 + witnesses_ser(
                            self.parameters.inputs@.take(k + 1),
                        ));
                    }
                }
                k = k + 1;
            }
            proof {
                assert(self.parameters.inputs@.take(num_inputs as int)
                    =~= self.parameters.inputs@);
            }
        }
        proof {
            crate::encoding::lemma_pow256_values();
        }
        append_le_bytes(&mut out, self.parameters.lock_time as u64, 4);
        proof {
            assert(out@ =~= tx_ser(self.parameters));
        }
        Ok(out)
    }
}

/// If serializing input `i` fails, the whole input list fails to serialize.
proof fn lemma_prefix_not_ser_ok(s: Seq<BitcoinTransactionInput>, i: int)
    requires
        0 <= i < s.len(),
        !input_ser_ok(s[i], !s[i].is_signed),
    ensures
        !inputs_ser_ok(s),
    decreases i,
{
    if i > 0 {
        lemma_prefix_not_ser_ok(s.drop_first(), i - 1);
    }
}


impl BitcoinTransaction {
    /// Serializes the transaction without the segwit marker or witness
    /// data: the bytes the txid commits to.
    pub fn to_transaction_bytes_without_witness(&self) -> (r: Result<
        Vec<u8>,
        TransactionError,
    >)
        ensures
            tx_ser_ok(self.parameters) ==> (r matches Ok(v) && v@ == tx_ser_without_witness(
                self.parameters,
            )),
            !tx_ser_ok(self.parameters) ==> r == Err::<Vec<u8>, TransactionError>(
                TransactionError::MissingOutpointScriptPublicKey,
            ),
    {
        let mut out: Vec<u8> = Vec::new();
        proof {
            crate::encoding::lemma_pow256_values();
        }
        append_le_bytes(&mut out, self.parameters.version as u64, 4);
        let count_prefix = match variable_length_integer(self.parameters.inputs.len() as u64) {
            Ok(v) => v,
            Err(e) => {
                return Err(e);
            },
        };
        crate::address::append_bytes(&mut out, &count_prefix);
        let ghost header = out@;
        let num_inputs: usize = self.parameters.inputs.len();
        let mut i: usize = 0;
        proof {
            assert(inputs_ser(self.parameters.inputs@.take(0)) == Seq::<u8>::empty()) by {
                assert(self.parameters.inputs@.take(0) =~= Seq::<
                    BitcoinTransactionInput,
                >::empty());
            }
            assert(inputs_ser_ok(self.parameters.inputs@.take(0))) by {
                assert(self.parameters.inputs@.take(0) =~= Seq::<
                    BitcoinTransactionInput,
                >::empty());
            }
            assert(out@ =~= header + inputs_ser(self.parameters.inputs@.take(0)));
        }
        while i < num_inputs
            invariant
                i <= num_inputs,
                num_inputs == self.parameters.inputs@.len(),
                out@ == header + inputs_ser(self.parameters.inputs@.take(i as int)),
                inputs_ser_ok(self.parameters.inputs@.take(i as int)),
            decreases num_inputs - i,
        {
            let input = &self.parameters.inputs[i];
            let serialized = match input.serialize(!input.is_signed) {
                Ok(v) => v,
                Err(e) => {
                    proof {
                        lemma_prefix_not_ser_ok(self.parameters.inputs@, i as int);
                    }
                    return Err(e);
                },
            };
            proof {
                lemma_inputs_ser_snoc(
                    self.parameters.inputs@.take(i as int),
                    self.parameters.inputs@[i as int],
                );
                assert(self.parameters.inputs@.take(i + 1)
                    =~= self.parameters.inputs@.take(i as int) + seq![
                    self.parameters.inputs@[i as int],
                ]);
            }
            crate::address::append_bytes(&mut out, &serialized);
            proof {
                assert(out@ =~= header + inputs_ser(self.parameters.inputs@.take(i + 1)));
            }
            i = i + 1;
        }
        proof {
            assert(self.parameters.inputs@.take(num_inputs as int)
                =~= self.parameters.inputs@);
        }
        let out_prefix = match variable_length_integer(self.parameters.outputs.len() as u64) {
            Ok(v) => v,
            Err(e) => {
                return Err(e);
            },
        };
        crate::address::append_bytes(&mut out, &out_prefix);
        let ghost header2 = out@;
        let num_outputs: usize = self.parameters.outputs.len();
        let mut j: usize = 0;
        proof {
            assert(outputs_ser(self.parameters.outputs@.take(0)) == Seq::<u8>::empty()) by {
                assert(self.parameters.outputs@.take(0) =~= Seq::<
                    BitcoinTransactionOutput,
                >::empty());
            }
            assert(out@ =~= header2 + outputs_ser(self.parameters.outputs@.take(0)));
        }
        while j < num_outputs
            invariant
                j <= num_outputs,
                num_outputs == self.parameters.outputs@.len(),
                out@ == header2 + outputs_ser(self.parameters.outputs@.take(j as int)),
            decreases num_outputs - j,
        {
            let serialized = match self.parameters.outputs[j].serialize() {
                Ok(v) => v,
                Err(e) => {
                    return Err(e);
                },
            };
            proof {
                lemma_outputs_ser_snoc(
                    self.parameters.outputs@.take(j as int),
                    self.parameters.outputs@[j as int],
                );
                assert(self.parameters.outputs@.take(j + 1)
                    =~= self.parameters.outputs@.take(j as int) + seq![
                    self.parameters.outputs@[j as int],
                ]);
            }
            crate::address::append_bytes(&mut out, &serialized);
            proof {
                assert(out@ =~= header2 + outputs_ser(
                    self.parameters.outputs@.take(j + 1),
                ));
            }
            j = j + 1;
        }
        proof {
            assert(self.parameters.outputs@.take(num_outputs as int)
                =~= self.parameters.outputs@);
            crate::encoding::lemma_pow256_values();
        }
        append_le_bytes(&mut out, self.parameters.lock_time as u64, 4);
        proof {
            assert(out@ =~= tx_ser_without_witness(self.parameters));
        }
        Ok(out)
    }

    /// The transaction's identifiers: reversed double-SHA-256 digests of the
    /// witness-free and full serializations.
    pub fn to_transaction_id(&self) -> (r: Result<BitcoinTransactionId, TransactionError>)
        ensures
            tx_ser_ok(self.parameters) ==> (r matches Ok(id) && id.txid@ == reversed(
                sha256_of(sha256_of(tx_ser_without_witness(self.parameters))),
            ) && id.wtxid@ == reversed(sha256_of(sha256_of(tx_ser(self.parameters))))),
    {
        let base = match self.to_transaction_bytes_without_witness() {
            Ok(v) => v,
            Err(e) => {
                return Err(e);
            },
        };
        let full = match self.to_transaction_bytes() {
            Ok(v) => v,
            Err(e) => {
                return Err(e);
            },
        };
        let txid_fwd = crate::hashing::checksum(&base);
        let wtxid_fwd = crate::hashing::checksum(&full);
        let txid = reverse_bytes(&txid_fwd);
        let wtxid = reverse_bytes(&wtxid_fwd);
        Ok(BitcoinTransactionId { txid, wtxid })
    }
}


/// The concatenated outpoints of all inputs, as BIP143 hashes them.
pub open spec fn prevouts_ser(s: Seq<BitcoinTransactionInput>) -> Seq<u8>
    decreases s.len(),
{
    if s.len() == 0 {
        Seq::empty()
    } else {
        outpoint_wire(s[0].outpoint) + prevouts_ser(s.drop_first())
    }
}

/// The concatenated sequence fields of all inputs.
pub open spec fn sequences_ser(s: Seq<BitcoinTransactionInput>) -> Seq<u8>
    decreases s.len(),
{
    if s.len() == 0 {
        Seq::empty()
    } else {
        s[0].sequence@ + sequences_ser(s.drop_first())
    }
}

pub proof fn lemma_prevouts_ser_snoc(s: Seq<BitcoinTransactionInput>, x: BitcoinTransactionInput)
    ensures
        prevouts_ser(s + seq![x]) == prevouts_ser(s) + outpoint_wire(x.outpoint),
        sequences_ser(s + seq![x]) == sequences_ser(s) + x.sequence@,
    decreases s.len(),
{
    if s.len() == 0 {
        assert((s + seq![x]).drop_first() =~= Seq::<BitcoinTransactionInput>::empty());
        assert((s + seq![x])[0] == x);
        assert(prevouts_ser(Seq::<BitcoinTransactionInput>::empty()) == Seq::<u8>::empty());
        assert(sequences_ser(Seq::<BitcoinTransactionInput>::empty()) == Seq::<u8>::empty());
        assert(prevouts_ser(s + seq![x]) =~= outpoint_wire(x.outpoint));
        assert(prevouts_ser(s) + outpoint_wire(x.outpoint) =~= outpoint_wire(x.outpoint));
        assert(sequences_ser(s + seq![x]) =~= x.sequence@);
        assert(sequences_ser(s) + x.sequence@ =~= x.sequence@);
    } else {
        assert((s + seq![x]).drop_first() =~= s.drop_first() + seq![x]);
        lemma_prevouts_ser_snoc(s.drop_first(), x);
        assert(prevouts_ser(s + seq![x]) =~= prevouts_ser(s) + outpoint_wire(x.outpoint));
        assert(sequences_ser(s + seq![x]) =~= sequences_ser(s) + x.sequence@);
    }
}

/// The per-input slots of the legacy signature preimage: the selected
/// input carries its previous scriptPubKey, every other script is blanked.
pub open spec fn legacy_input_ser(i: BitcoinTransactionInput, selected: bool) -> Seq<u8> {
    outpoint_wire(i.outpoint) + (if selected {
        match i.outpoint.script_pub_key {
            Some(spk) => script_field(spk@),
            None => seq![0u8],
        }
    } else {
        seq![0u8]
    }) + i.sequence@
}

pub open spec fn legacy_inputs_ser(s: Seq<BitcoinTransactionInput>, vin: int) -> Seq<u8>
    decreases s.len(),
{
    if s.len() == 0 {
        Seq::empty()
    } else {
        legacy_input_ser(s[0], vin == 0) + legacy_inputs_ser(s.drop_first(), vin - 1)
    }
}

pub proof fn lemma_legacy_inputs_ser_snoc(
    s: Seq<BitcoinTransactionInput>,
    x: BitcoinTransactionInput,
    vin: int,
)
    ensures
        legacy_inputs_ser(s + seq![x], vin) == legacy_inputs_ser(s, vin) + legacy_input_ser(
            x,
            vin == s.len(),
        ),
    decreases s.len(),
{
    if s.len() == 0 {
        assert((s + seq![x]).drop_first() =~= Seq::<BitcoinTransactionInput>::empty());
        assert((s + seq![x])[0] == x);
        assert(legacy_inputs_ser(Seq::<BitcoinTransactionInput>::empty(), vin - 1) == Seq::<
            u8,
        >::empty());
        assert(legacy_inputs_ser(s + seq![x], vin) =~= legacy_input_ser(x, vin == 0));
        assert(legacy_inputs_ser(s, vin) + legacy_input_ser(x, vin == 0) =~= legacy_input_ser(
            x,
            vin == 0,
        ));
    } else {
        assert((s + seq![x]).drop_first() =~= s.drop_first() + seq![x]);
        lemma_legacy_inputs_ser_snoc(s.drop_first(), x, vin - 1);
        assert(legacy_inputs_ser(s + seq![x], vin) =~= legacy_inputs_ser(s, vin)
            + legacy_input_ser(x, vin == s.len() as int));
    }
}

/// The legacy signature preimage of input `vin`: the whole transaction with
/// scripts substituted, then the sighash code as a 32-bit trailer.
pub open spec fn p2pkh_preimage(p: BitcoinTransactionParameters, vin: int) -> Seq<u8> {
    le_bytes(p.version as int, 4) + vli(p.inputs@.len() as int) + legacy_inputs_ser(
        p.inputs@,
        vin,
    ) + vli(p.outputs@.len() as int) + outputs_ser(p.outputs@) + le_bytes(
        p.lock_time as int,
        4,
    ) + le_bytes(sighash_byte(p.inputs@[vin].sighash_code) as int, 4)
}

/// The BIP143 script code of an input: the P2PKH-style code around the key
/// hash for key-hash spends, or the length-prefixed witness script.
pub open spec fn bip143_script_code(i: BitcoinTransactionInput) -> Seq<u8> {
    match i.outpoint.address {
        Some(a) => match a.format {
            BitcoinFormat::P2SH_P2WPKH => (match i.outpoint.redeem_script {
                Some(rs) => seq![0x19u8, 0x76u8, 0xa9u8, 0x14u8] + rs@.subrange(2, 22) + seq![
                    0x88u8,
                    0xacu8,
                ],
                None => Seq::<u8>::empty(),
            }),
            BitcoinFormat::Bech32 => (match i.outpoint.script_pub_key {
                Some(spk) => seq![0x19u8, 0x76u8, 0xa9u8, 0x14u8] + spk@.subrange(2, 22)
                    + seq![0x88u8, 0xacu8],
                None => Seq::<u8>::empty(),
            }),
            _ => (match i.outpoint.redeem_script {
                Some(rs) => script_field(rs@),
                None => Seq::<u8>::empty(),
            }),
        },
        None => Seq::<u8>::empty(),
    }
}

/// The BIP143 signature preimage of input `vin`.
pub open spec fn segwit_preimage(p: BitcoinTransactionParameters, vin: int) -> Seq<u8> {
    let i = p.inputs@[vin];
    let amount = (match i.outpoint.amount {
        Some(a) => a.0 as u64,
        None => 0u64,
    });
    le_bytes(p.version as int, 4) + sha256_of(sha256_of(prevouts_ser(p.inputs@)))
        + sha256_of(sha256_of(sequences_ser(p.inputs@))) + outpoint_wire(i.outpoint)
        + bip143_script_code(i) + le_bytes(amount as int, 8) + i.sequence@ + sha256_of(
        sha256_of(outputs_ser(p.outputs@)),
    ) + le_bytes(p.lock_time as int, 4) + le_bytes(sighash_byte(i.sighash_code) as int, 4)
}

/// The encoded signature an input receives: the DER signature over the
/// double-SHA-256 of the preimage, the sighash byte, and a length prefix.
pub open spec fn tx_signature(preimage: Seq<u8>, sk: Seq<u8>, sighash: u8) -> Seq<u8> {
    let der = crate::secp::ecdsa_sig_of(sha256_of(sha256_of(preimage)), sk) + seq![sighash];
    vli(der.len() as int) + der
}

/// A length-prefixed public key field.
pub open spec fn pubkey_field(pk: Seq<u8>) -> Seq<u8> {
    seq![pk.len() as u8] + pk
}

/// Builds the legacy preimage of input `vin`.
fn p2pkh_preimage_exec(p: &BitcoinTransactionParameters, vin: usize) -> (r: Result<
    Vec<u8>,
    TransactionError,
>)
    requires
        vin < p.inputs@.len(),
    ensures
        r matches Ok(v) && v@ == p2pkh_preimage(*p, vin as int),
        r is Ok,
{
    let mut out: Vec<u8> = Vec::new();
    proof {
        crate::encoding::lemma_pow256_values();
    }
    append_le_bytes(&mut out, p.version as u64, 4);
    let count_prefix = match variable_length_integer(p.inputs.len() as u64) {
        Ok(v) => v,
        Err(e) => {
            proof {
                assert(false);
            }
            return Err(e);
        },
    };
    crate::address::append_bytes(&mut out, &count_prefix);
    let ghost header = out@;
    let n: usize = p.inputs.len();
    let mut i: usize = 0;
    proof {
        assert(legacy_inputs_ser(p.inputs@.take(0), vin as int) == Seq::<u8>::empty()) by {
            assert(p.inputs@.take(0) =~= Seq::<BitcoinTransactionInput>::empty());
        }
        assert(out@ =~= header + legacy_inputs_ser(p.inputs@.take(0), vin as int));
    }
    while i < n
        invariant
            i <= n,
            n == p.inputs@.len(),
            vin < n,
            out@ == header + legacy_inputs_ser(p.inputs@.take(i as int), vin as int),
        decreases n - i,
    {
        let input = &p.inputs[i];
        crate::address::append_bytes(&mut out, &input.outpoint.reverse_transaction_id);
        proof {
            crate::encoding::lemma_pow256_values();
        }
        append_le_bytes(&mut out, input.outpoint.index as u64, 4);
        if i == vin {
            match &input.outpoint.script_pub_key {
                Some(spk) => {
                    let prefix = match variable_length_integer(spk.len() as u64) {
                        Ok(v) => v,
                        Err(e) => {
                            proof {
                                assert(false);
                            }
                            return Err(e);
                        },
                    };
                    crate::address::append_bytes(&mut out, &prefix);
                    crate::address::append_bytes(&mut out, spk);
                },
                None => {
                    out.push(0x00);
                },
            }
        } else {
            out.push(0x00);
        }
        crate::address::append_bytes(&mut out, &input.sequence);
        proof {
            lemma_legacy_inputs_ser_snoc(
                p.inputs@.take(i as int),
                p.inputs@[i as int],
                vin as int,
            );
            assert(p.inputs@.take(i + 1) =~= p.inputs@.take(i as int) + seq![
                p.inputs@[i as int],
            ]);
            assert(out@ =~= header + legacy_inputs_ser(p.inputs@.take(i + 1), vin as int));
        }
        i = i + 1;
    }
    proof {
        assert(p.inputs@.take(n as int) =~= p.inputs@);
    }
    let out_prefix = match variable_length_integer(p.outputs.len() as u64) {
        Ok(v) => v,
        Err(e) => {
            proof {
                assert(false);
            }
            return Err(e);
        },
    };
    crate::address::append_bytes(&mut out, &out_prefix);
    let ghost header2 = out@;
    let num_outputs: usize = p.outputs.len();
    let mut j: usize = 0;
    proof {
        assert(outputs_ser(p.outputs@.take(0)) == Seq::<u8>::empty()) by {
            assert(p.outputs@.take(0) =~= Seq::<BitcoinTransactionOutput>::empty());
        }
        assert(out@ =~= header2 + outputs_ser(p.outputs@.take(0)));
    }
    while j < num_outputs
        invariant
            j <= num_outputs,
            num_outputs == p.outputs@.len(),
            out@ == header2 + outputs_ser(p.outputs@.take(j as int)),
        decreases num_outputs - j,
    {
        let serialized = match p.outputs[j].serialize() {
            Ok(v) => v,
            Err(e) => {
                proof {
                    assert(false);
                }
                return Err(e);
            },
        };
        proof {
            lemma_outputs_ser_snoc(p.outputs@.take(j as int), p.outputs@[j as int]);
            assert(p.outputs@.take(j + 1) =~= p.outputs@.take(j as int) + seq![
                p.outputs@[j as int],
            ]);
        }
        crate::address::append_bytes(&mut out, &serialized);
        proof {
            assert(out@ =~= header2 + outputs_ser(p.outputs@.take(j + 1)));
        }
        j = j + 1;
    }
    proof {
        assert(p.outputs@.take(num_outputs as int) =~= p.outputs@);
        crate::encoding::lemma_pow256_values();
    }
    append_le_bytes(&mut out, p.lock_time as u64, 4);
    let sighash: u8 = p.inputs[vin].sighash_code.to_byte();
    append_le_bytes(&mut out, sighash as u64, 4);
    proof {
        assert(out@ =~= p2pkh_preimage(*p, vin as int));
    }
    Ok(out)
}

/// Whether input `vin` carries what its BIP143 preimage needs: its amount
/// and the script its code derives from.
pub open spec fn segwit_preimage_ok(p: BitcoinTransactionParameters, vin: int) -> bool {
    let i = p.inputs@[vin];
    &&& i.outpoint.amount is Some
    &&& (match i.outpoint.address {
        Some(a) => match a.format {
            BitcoinFormat::P2SH_P2WPKH => (match i.outpoint.redeem_script {
                Some(rs) => rs@.len() >= 22,
                None => false,
            }),
            BitcoinFormat::Bech32 => (match i.outpoint.script_pub_key {
                Some(spk) => spk@.len() >= 22,
                None => false,
            }),
            _ => i.outpoint.redeem_script is Some,
        },
        None => false,
    })
}

/// Builds the BIP143 preimage of input `vin`; the input must carry its
/// amount and the script its code derives from.
#[verifier::rlimit(100)]
fn segwit_preimage_exec(p: &BitcoinTransactionParameters, vin: usize) -> (r: Result<
    Vec<u8>,
    TransactionError,
>)
    requires
        vin < p.inputs@.len(),
        p.inputs@[vin as int].outpoint.address is Some,
    ensures
        r is Ok <==> segwit_preimage_ok(*p, vin as int),
        r matches Ok(v) ==> v@ == segwit_preimage(*p, vin as int),
{
    proof {
        reveal_strlit("segwit preimage");
    }
    let input = &p.inputs[vin];
    let amount: u64 = match &input.outpoint.amount {
        Some(a) => a.0 as u64,
        None => {
            return Err(TransactionError::InvalidInputs(String::from_str("segwit preimage")));
        },
    };
    let script_code: Vec<u8> = match &input.outpoint.address {
        Some(addr) => {
            match addr.format {
                BitcoinFormat::P2SH_P2WPKH => {
                    match &input.outpoint.redeem_script {
                        Some(rs) => {
                            if rs.len() < 22 {
                                return Err(
                                    TransactionError::InvalidInputs(
                                        String::from_str("segwit preimage"),
                                    ),
                                );
                            }
                            let mut code: Vec<u8> = Vec::new();
                            code.push(0x19);
                            code.push(0x76);
                            code.push(0xa9);
                            code.push(0x14);
                            let hash = copy_range(rs, 2, 22);
                            crate::address::append_bytes(&mut code, &hash);
                            code.push(0x88);
                            code.push(0xac);
                            proof {
                                assert(code@ =~= bip143_script_code(p.inputs@[vin as int]));
                            }
                            code
                        },
                        None => {
                            return Err(
                                TransactionError::InvalidInputs(
                                    String::from_str("segwit preimage"),
                                ),
                            );
                        },
                    }
                },
                BitcoinFormat::Bech32 => {
                    match &input.outpoint.script_pub_key {
                        Some(spk) => {
                            if spk.len() < 22 {
                                return Err(
                                    TransactionError::InvalidInputs(
                                        String::from_str("segwit preimage"),
                                    ),
                                );
                            }
                            let mut code: Vec<u8> = Vec::new();
                            code.push(0x19);
                            code.push(0x76);
                            code.push(0xa9);
                            code.push(0x14);
                            let hash = copy_range(spk, 2, 22);
                            crate::address::append_bytes(&mut code, &hash);
                            code.push(0x88);
                            code.push(0xac);
                            proof {
                                assert(code@ =~= bip143_script_code(p.inputs@[vin as int]));
                            }
                            code
                        },
                        None => {
                            return Err(
                                TransactionError::InvalidInputs(
                                    String::from_str("segwit preimage"),
                                ),
                            );
                        },
                    }
                },
                _ => {
                    match &input.outpoint.redeem_script {
                        Some(rs) => {
                            let prefix = match variable_length_integer(rs.len() as u64) {
                                Ok(v) => v,
                                Err(e) => {
                                    proof {
                                        assert(false);
                                    }
                                    return Err(e);
                                },
                            };
                            let mut code = prefix;
                            crate::address::append_bytes(&mut code, rs);
                            proof {
                                assert(code@ =~= bip143_script_code(p.inputs@[vin as int]));
                            }
                            code
                        },
                        None => {
                            return Err(
                                TransactionError::InvalidInputs(
                                    String::from_str("segwit preimage"),
                                ),
                            );
                        },
                    }
                },
            }
        },
        None => {
            return Err(TransactionError::InvalidInputs(String::from_str("segwit preimage")));
        },
    };
    let mut prevouts: Vec<u8> = Vec::new();
    let mut sequences: Vec<u8> = Vec::new();
    let n: usize = p.inputs.len();
    let mut i: usize = 0;
    proof {
        assert(prevouts_ser(p.inputs@.take(0)) == Seq::<u8>::empty()) by {
            assert(p.inputs@.take(0) =~= Seq::<BitcoinTransactionInput>::empty());
        }
        assert(sequences_ser(p.inputs@.take(0)) == Seq::<u8>::empty()) by {
            assert(p.inputs@.take(0) =~= Seq::<BitcoinTransactionInput>::empty());
        }
    }
    while i < n
        invariant
            i <= n,
            n == p.inputs@.len(),
            prevouts@ == prevouts_ser(p.inputs@.take(i as int)),
            sequences@ == sequences_ser(p.inputs@.take(i as int)),
        decreases n - i,
    {
        let inp = &p.inputs[i];
        crate::address::append_bytes(&mut prevouts, &inp.outpoint.reverse_transaction_id);
        proof {
            crate::encoding::lemma_pow256_values();
        }
        append_le_bytes(&mut prevouts, inp.outpoint.index as u64, 4);
        crate::address::append_bytes(&mut sequences, &inp.sequence);
        proof {
            lemma_prevouts_ser_snoc(p.inputs@.take(i as int), p.inputs@[i as int]);
            assert(p.inputs@.take(i + 1) =~= p.inputs@.take(i as int) + seq![
                p.inputs@[i as int],
            ]);
            assert(prevouts@ =~= prevouts_ser(p.inputs@.take(i + 1)));
            assert(sequences@ =~= sequences_ser(p.inputs@.take(i + 1)));
        }
        i = i + 1;
    }
    proof {
        assert(p.inputs@.take(n as int) =~= p.inputs@);
    }
    let mut outputs_bytes: Vec<u8> = Vec::new();
    let num_outputs: usize = p.outputs.len();
    let mut j: usize = 0;
    proof {
        assert(outputs_ser(p.outputs@.take(0)) == Seq::<u8>::empty()) by {
            assert(p.outputs@.take(0) =~= Seq::<BitcoinTransactionOutput>::empty());
        }
    }
    while j < num_outputs
        invariant
            j <= num_outputs,
            num_outputs == p.outputs@.len(),
            outputs_bytes@ == outputs_ser(p.outputs@.take(j as int)),
        decreases num_outputs - j,
    {
        let serialized = match p.outputs[j].serialize() {
            Ok(v) => v,
            Err(e) => {
                proof {
                    assert(false);
                }
                return Err(e);
            },
        };
        proof {
            lemma_outputs_ser_snoc(p.outputs@.take(j as int), p.outputs@[j as int]);
            assert(p.outputs@.take(j + 1) =~= p.outputs@.take(j as int) + seq![
                p.outputs@[j as int],
            ]);
        }
        crate::address::append_bytes(&mut outputs_bytes, &serialized);
        proof {
            assert(outputs_bytes@ =~= outputs_ser(p.outputs@.take(j + 1)));
        }
        j = j + 1;
    }
    proof {
        assert(p.outputs@.take(num_outputs as int) =~= p.outputs@);
    }
    let hash_prevouts = crate::hashing::checksum(&prevouts);
    let hash_sequences = crate::hashing::checksum(&sequences);
    let hash_outputs = crate::hashing::checksum(&outputs_bytes);
    let mut out: Vec<u8> = Vec::new();
    proof {
        crate::encoding::lemma_pow256_values();
    }
    append_le_bytes(&mut out, p.version as u64, 4);
    crate::address::append_bytes(&mut out, &hash_prevouts);
    crate::address::append_bytes(&mut out, &hash_sequences);
    proof {
        let ghost part1 = le_bytes(p.version as int, 4) + sha256_of(
            sha256_of(prevouts_ser(p.inputs@)),
        ) + sha256_of(sha256_of(sequences_ser(p.inputs@)));
        assert(out@ =~= part1);
    }
    crate::address::append_bytes(&mut out, &input.outpoint.reverse_transaction_id);
    append_le_bytes(&mut out, input.outpoint.index as u64, 4);
    proof {
        let i = p.inputs@[vin as int];
        let ghost part2 = le_bytes(p.version as int, 4) + sha256_of(
            sha256_of(prevouts_ser(p.inputs@)),
        ) + sha256_of(sha256_of(sequences_ser(p.inputs@))) + outpoint_wire(i.outpoint);
        assert(out@ =~= part2);
    }
    crate::address::append_bytes(&mut out, &script_code);
    append_le_bytes(&mut out, amount, 8);
    crate::address::append_bytes(&mut out, &input.sequence);
    crate::address::append_bytes(&mut out, &hash_outputs);
    append_le_bytes(&mut out, p.lock_time as u64, 4);
    let sighash: u8 = input.sighash_code.to_byte();
    append_le_bytes(&mut out, sighash as u64, 4);
    proof {
        let i = p.inputs@[vin as int];
        assert(hash_prevouts@ == sha256_of(sha256_of(prevouts_ser(p.inputs@))));
        assert(hash_sequences@ == sha256_of(sha256_of(sequences_ser(p.inputs@))));
        assert(hash_outputs@ == sha256_of(sha256_of(outputs_ser(p.outputs@))));
        assert(script_code@ == bip143_script_code(i));
        assert(amount == (match i.outpoint.amount {
            Some(a) => a.0 as u64,
            None => 0u64,
        }));
        assert(out@ =~= segwit_preimage(*p, vin as int));
    }
    Ok(out)
}

/// Signs a 32-byte double-SHA-256 of the preimage and appends the sighash
/// byte and a length prefix.
fn make_signature(preimage: &Vec<u8>, private_key: &BitcoinPrivateKey, sighash: u8) -> (r: Vec<
    u8,
>)
    requires
        private_key.wf(),
    ensures
        r@ == tx_signature(preimage@, private_key.secret_spec(), sighash),
{
    let digest = crate::hashing::checksum(preimage);
    let secret = private_key.to_secp256k1_secret_key();
    let der = crate::secp::ecdsa_sign_der(&digest, &secret);
    let mut sig = der;
    sig.push(sighash);
    let prefix = match variable_length_integer(sig.len() as u64) {
        Ok(v) => v,
        Err(_) => Vec::new(),
    };
    let mut out = prefix;
    crate::address::append_bytes(&mut out, &sig);
    proof {
        assert(sig@ =~= crate::secp::ecdsa_sig_of(
            sha256_of(sha256_of(preimage@)),
            private_key.secret_spec(),
        ) + seq![sighash]);
        assert(out@ =~= tx_signature(preimage@, private_key.secret_spec(), sighash));
    }
    out
}


/// Option'd byte vectors agree by content.
pub open spec fn opt_bytes_eq(a: Option<Vec<u8>>, b: Option<Vec<u8>>) -> bool {
    match (a, b) {
        (Option::None, Option::None) => true,
        (Option::Some(x), Option::Some(y)) => x@ == y@,
        _ => false,
    }
}

/// Option'd addresses agree by text and format.
pub open spec fn opt_addr_eq(a: Option<BitcoinAddress>, b: Option<BitcoinAddress>) -> bool {
    match (a, b) {
        (Option::None, Option::None) => true,
        (Option::Some(x), Option::Some(y)) => x.address@ == y.address@ && x.format == y.format,
        _ => false,
    }
}

/// Option'd companion-witness pairs agree by content.
pub open spec fn opt_pair_eq(a: Option<(Vec<u8>, bool)>, b: Option<(Vec<u8>, bool)>) -> bool {
    match (a, b) {
        (Option::None, Option::None) => true,
        (Option::Some(x), Option::Some(y)) => x.0@ == y.0@ && x.1 == y.1,
        _ => false,
    }
}

/// Outpoints agree by content.
pub open spec fn outpoint_eq(a: Outpoint, b: Outpoint) -> bool {
    a.reverse_transaction_id@ == b.reverse_transaction_id@ && a.index == b.index && a.amount
        == b.amount && opt_bytes_eq(a.script_pub_key, b.script_pub_key) && opt_bytes_eq(
        a.redeem_script,
        b.redeem_script,
    ) && opt_addr_eq(a.address, b.address)
}

/// Inputs agree by content.
pub open spec fn input_core_eq(a: BitcoinTransactionInput, b: BitcoinTransactionInput) -> bool {
    outpoint_eq(a.outpoint, b.outpoint) && a.script_sig@ == b.script_sig@ && a.sequence@
        == b.sequence@ && a.sighash_code == b.sighash_code && a.witnesses.deep_view()
        == b.witnesses.deep_view() && a.is_signed == b.is_signed && opt_pair_eq(
        a.additional_witness,
        b.additional_witness,
    ) && opt_pair_eq(b.additional_witness, a.additional_witness) && opt_bytes_eq(
        a.witness_script_data,
        b.witness_script_data,
    )
}

/// Outputs agree by content.
pub open spec fn output_eq(a: BitcoinTransactionOutput, b: BitcoinTransactionOutput) -> bool {
    a.amount == b.amount && a.script_pub_key@ == b.script_pub_key@
}

fn clone_opt_bytes(o: &Option<Vec<u8>>) -> (r: Option<Vec<u8>>)
    ensures
        opt_bytes_eq(r, *o),
        r is Some <==> o is Some,
{
    match o {
        Some(v) => Some(clone_bytes(v)),
        None => None,
    }
}

fn clone_opt_address(o: &Option<BitcoinAddress>) -> (r: Option<BitcoinAddress>)
    ensures
        opt_addr_eq(r, *o),
        r is Some <==> o is Some,
{
    match o {
        Some(a) => Some(BitcoinAddress { address: a.address.clone(), format: a.format }),
        None => None,
    }
}

fn clone_opt_pair(o: &Option<(Vec<u8>, bool)>) -> (r: Option<(Vec<u8>, bool)>)
    ensures
        opt_pair_eq(r, *o),
        opt_pair_eq(*o, r),
        r is Some <==> o is Some,
{
    match o {
        Some(t) => Some((clone_bytes(&t.0), t.1)),
        None => None,
    }
}

fn clone_witnesses(w: &Vec<Vec<u8>>) -> (r: Vec<Vec<u8>>)
    ensures
        r.deep_view() == w.deep_view(),
{
    let mut out: Vec<Vec<u8>> = Vec::new();
    let n: usize = w.len();
    let mut i: usize = 0;
    proof {
        assert(out.deep_view() =~~= w.deep_view().take(0));
    }
    while i < n
        invariant
            i <= n,
            n == w@.len(),
            out.deep_view() == w.deep_view().take(i as int),
        decreases n - i,
    {
        let item = clone_bytes(&w[i]);
        let ghost prev = out.deep_view();
        out.push(item);
        proof {
            assert(out.deep_view() =~~= prev + seq![item@]);
            assert(w.deep_view().take(i + 1) =~~= w.deep_view().take(i as int) + seq![
                w.deep_view()[i as int],
            ]);
            assert(w.deep_view()[i as int] == w@[i as int]@);
            assert(out.deep_view() =~~= w.deep_view().take(i + 1));
        }
        i = i + 1;
    }
    proof {
        assert(w.deep_view().take(n as int) =~~= w.deep_view());
    }
    out
}

fn clone_outpoint(o: &Outpoint) -> (r: Outpoint)
    ensures
        outpoint_eq(r, *o),
{
    Outpoint {
        reverse_transaction_id: clone_bytes(&o.reverse_transaction_id),
        index: o.index,
        amount: o.amount,
        script_pub_key: clone_opt_bytes(&o.script_pub_key),
        redeem_script: clone_opt_bytes(&o.redeem_script),
        address: clone_opt_address(&o.address),
    }
}

fn clone_input(i: &BitcoinTransactionInput) -> (r: BitcoinTransactionInput)
    ensures
        input_core_eq(r, *i),
{
    BitcoinTransactionInput {
        outpoint: clone_outpoint(&i.outpoint),
        script_sig: clone_bytes(&i.script_sig),
        sequence: clone_bytes(&i.sequence),
        sighash_code: i.sighash_code,
        witnesses: clone_witnesses(&i.witnesses),
        is_signed: i.is_signed,
        additional_witness: clone_opt_pair(&i.additional_witness),
        witness_script_data: clone_opt_bytes(&i.witness_script_data),
    }
}

/// Whether two addresses render and classify identically.
fn address_eq(a: &BitcoinAddress, b: &BitcoinAddress) -> (r: bool)
    ensures
        r == (a.address@ == b.address@ && a.format == b.format),
{
    a.address == b.address && a.format == b.format
}

/// Whether the signer's key pays the input's address, format by format.
pub open spec fn signer_matches(i: BitcoinTransactionInput, sk: Seq<u8>, compressed: bool) -> bool {
    match i.outpoint.address {
        None => false,
        Some(a) => match a.format {
            BitcoinFormat::P2WSH => (match i.outpoint.redeem_script {
                Some(rs) => a.address@ == crate::address::p2wsh_text(rs@),
                None => false,
            }),
            BitcoinFormat::P2PKH => a.address@ == crate::text_codec::base58_of(
                crate::address::base58check(
                    crate::address::p2pkh_payload_of(crate::secp::pubkey_of(sk), compressed),
                ),
            ),
            BitcoinFormat::P2SH_P2WPKH => a.address@ == crate::text_codec::base58_of(
                crate::address::base58check(
                    crate::address::p2sh_p2wpkh_payload_of(crate::secp::pubkey_of(sk)),
                ),
            ),
            BitcoinFormat::Bech32 => a.address@ == crate::text_codec::bech32_addr_of(
                crate::address::bech32_hrp(),
                0,
                crate::hashing::hash160_of(crate::secp::pubkey_of(sk)),
            ),
        },
    }
}

/// Whether the signer acts on input `j`: it has a matching address and is
/// not yet signed.
pub open spec fn signs_here(
    p: BitcoinTransactionParameters,
    j: int,
    sk: Seq<u8>,
    compressed: bool,
) -> bool {
    let i = p.inputs@[j];
    i.outpoint.address is Some && !i.is_signed && signer_matches(i, sk, compressed)
}

/// Whether signing input `j` produces witness data.
pub open spec fn witness_signed_at(
    p: BitcoinTransactionParameters,
    j: int,
    sk: Seq<u8>,
    compressed: bool,
) -> bool {
    signs_here(p, j, sk, compressed) && (match p.inputs@[j].outpoint.address {
        Some(a) => a.format != BitcoinFormat::P2PKH,
        None => false,
    })
}

/// The scriptSig a legacy input receives: the encoded signature, then the
/// length-prefixed public key.
pub open spec fn p2pkh_scriptsig(
    p: BitcoinTransactionParameters,
    vin: int,
    sk: Seq<u8>,
    compressed: bool,
) -> Seq<u8> {
    tx_signature(p2pkh_preimage(p, vin), sk, sighash_byte(p.inputs@[vin].sighash_code))
        + pubkey_field(
        crate::address::pubkey_ser_bytes(crate::secp::pubkey_of(sk), compressed),
    )
}

/// The encoded signature a segwit input receives.
pub open spec fn segwit_sig(p: BitcoinTransactionParameters, vin: int, sk: Seq<u8>) -> Seq<u8> {
    tx_signature(segwit_preimage(p, vin), sk, sighash_byte(p.inputs@[vin].sighash_code))
}

/// What signing demands of an input the key acts on, per its format.
pub open spec fn input_signable(i: BitcoinTransactionInput) -> bool {
    match i.outpoint.address {
        Some(a) => match a.format {
            BitcoinFormat::P2PKH => true,
            BitcoinFormat::Bech32 => i.outpoint.amount is Some && (
            match i.outpoint.script_pub_key {
                Some(spk) => spk@.len() >= 22,
                None => false,
            }),
            BitcoinFormat::P2SH_P2WPKH => i.outpoint.amount is Some && (
            match i.outpoint.redeem_script {
                Some(rs) => rs@.len() >= 22,
                None => false,
            }),
            BitcoinFormat::P2WSH => i.outpoint.amount is Some && i.outpoint.redeem_script
                is Some && i.additional_witness is Some && (match i.witness_script_data {
                Some(d) => d@.len() <= 255,
                None => true,
            }),
        },
        None => true,
    }
}

/// The per-input condition signing checks: a P2WSH input always carries its
/// redeem script, and an input the key acts on is fully resolved.
pub open spec fn sign_input_ok(
    p: BitcoinTransactionParameters,
    j: int,
    sk: Seq<u8>,
    compressed: bool,
) -> bool {
    let i = p.inputs@[j];
    &&& (match i.outpoint.address {
        Some(a) => a.format == BitcoinFormat::P2WSH ==> i.outpoint.redeem_script is Some,
        None => true,
    })
    &&& (signs_here(p, j, sk, compressed) ==> input_signable(i))
}

/// Signing succeeds exactly when every input passes its condition.
pub open spec fn sign_ok(p: BitcoinTransactionParameters, sk: Seq<u8>, compressed: bool) -> bool {
    forall|j: int| 0 <= j < p.inputs@.len() ==> #[trigger] sign_input_ok(p, j, sk, compressed)
}

/// How each result input relates to its original: untouched unless the
/// signer acts on it, and then assembled per its address format.
pub open spec fn signed_input_rel(
    p: BitcoinTransactionParameters,
    j: int,
    sk: Seq<u8>,
    compressed: bool,
    old_i: BitcoinTransactionInput,
    new_i: BitcoinTransactionInput,
) -> bool {
    if !signs_here(p, j, sk, compressed) {
        input_core_eq(new_i, old_i)
    } else {
        outpoint_eq(new_i.outpoint, old_i.outpoint) && new_i.sequence@ == old_i.sequence@
            && new_i.sighash_code == old_i.sighash_code && new_i.is_signed && opt_pair_eq(
            new_i.additional_witness,
            old_i.additional_witness,
        ) && opt_bytes_eq(new_i.witness_script_data, old_i.witness_script_data) && (
        match old_i.outpoint.address {
            Some(a) => match a.format {
                BitcoinFormat::P2PKH => new_i.script_sig@ == p2pkh_scriptsig(
                    p,
                    j,
                    sk,
                    compressed,
                ) && new_i.witnesses.deep_view() == old_i.witnesses.deep_view(),
                BitcoinFormat::Bech32 => new_i.script_sig@ == old_i.script_sig@
                    && new_i.witnesses.deep_view() == old_i.witnesses.deep_view() + seq![
                    segwit_sig(p, j, sk),
                    pubkey_field(crate::secp::pubkey_of(sk)),
                ],
                BitcoinFormat::P2SH_P2WPKH => (match old_i.outpoint.redeem_script {
                    Some(rs) => new_i.script_sig@ == script_field(rs@)
                        && new_i.witnesses.deep_view() == old_i.witnesses.deep_view() + seq![
                        segwit_sig(p, j, sk),
                        pubkey_field(crate::secp::pubkey_of(sk)),
                    ],
                    None => false,
                }),
                BitcoinFormat::P2WSH => (match (
                    old_i.outpoint.redeem_script,
                    old_i.additional_witness,
                ) {
                    (Option::Some(rs), Option::Some(other)) => new_i.script_sig@ == Seq::<
                        u8,
                    >::empty() && new_i.witnesses.deep_view() == old_i.witnesses.deep_view()
                        + (if other.1 {
                        seq![other.0@, segwit_sig(p, j, sk)]
                    } else {
                        seq![segwit_sig(p, j, sk), other.0@]
                    }) + (match old_i.witness_script_data {
                        Some(d) => seq![seq![d@.len() as u8] + d@],
                        None => Seq::<Seq<u8>>::empty(),
                    }) + seq![script_field(rs@)],
                    _ => false,
                }),
            },
            None => false,
        })
    }
}

impl BitcoinTransaction {
    /// Signs every unsigned input whose address the key pays, leaving other
    /// inputs untouched; already-signed inputs stay as they are, so signing
    /// rounds compose.
    pub fn sign(&self, private_key: &BitcoinPrivateKey) -> (r: Result<
        BitcoinTransaction,
        TransactionError,
    >)
        requires
            private_key.wf(),
        ensures
            r matches Ok(t) ==> ({
                let p = self.parameters;
                let q = t.parameters;
                let sk = private_key.secret_spec();
                let compressed = private_key.compressed_spec();
                &&& q.version == p.version
                &&& q.lock_time == p.lock_time
                &&& q.inputs@.len() == p.inputs@.len()
                &&& q.outputs@.len() == p.outputs@.len()
                &&& (forall|j: int|
                    0 <= j < p.outputs@.len() ==> output_eq(
                        #[trigger] q.outputs@[j],
                        p.outputs@[j],
                    ))
                &&& (forall|j: int|
                    0 <= j < p.inputs@.len() ==> signed_input_rel(
                        p,
                        j,
                        sk,
                        compressed,
                        p.inputs@[j],
                        #[trigger] q.inputs@[j],
                    ))
                &&& q.segwit_flag == (p.segwit_flag || (exists|j: int|
                    0 <= j < p.inputs@.len() && #[trigger] witness_signed_at(
                        p,
                        j,
                        sk,
                        compressed,
                    )))
            }),
            r is Ok <==> sign_ok(
                self.parameters,
                private_key.secret_spec(),
                private_key.compressed_spec(),
            ),
    {
        proof {
            reveal_strlit("P2WSH");
            reveal_strlit("P2SH_P2WPKH");
            reveal_strlit("witness script data");
        }
        let ghost p = self.parameters;
        let ghost sk = private_key.secret_spec();
        let ghost compressed = private_key.compressed_spec();
        let n: usize = self.parameters.inputs.len();
        let mut new_inputs: Vec<BitcoinTransactionInput> = Vec::new();
        let mut seg_any: bool = false;
        let mut j: usize = 0;
        while j < n
            invariant
                j <= n,
                n == p.inputs@.len(),
                self.parameters == p,
                private_key.wf(),
                sk == private_key.secret_spec(),
                compressed == private_key.compressed_spec(),
                new_inputs@.len() == j,
                forall|k: int|
                    0 <= k < j ==> signed_input_rel(
                        p,
                        k,
                        sk,
                        compressed,
                        p.inputs@[k],
                        #[trigger] new_inputs@[k],
                    ),
                seg_any == (exists|k: int|
                    0 <= k < j && #[trigger] witness_signed_at(p, k, sk, compressed)),
                forall|k: int| 0 <= k < j ==> #[trigger] sign_input_ok(p, k, sk, compressed),
            decreases n - j,
        {
            let input = &self.parameters.inputs[j];
            let mut handled: bool = false;
            let mut witnessy: bool = false;
            let mut result_input: BitcoinTransactionInput = clone_input(input);
            match &input.outpoint.address {
                None => {},
                Some(addr) => {
                    let address_is_valid: bool = match addr.format {
                        BitcoinFormat::P2WSH => {
                            let rs = match &input.outpoint.redeem_script {
                                Some(rs) => rs,
                                None => {
                                    proof {
                                        assert(!sign_input_ok(p, j as int, sk, compressed));
                                        assert(!sign_ok(p, sk, compressed));
                                    }
                                    return Err(
                                        TransactionError::InvalidInputs(
                                            String::from_str("P2WSH"),
                                        ),
                                    );
                                },
                            };
                            let c_address = match BitcoinAddress::p2wsh(rs) {
                                Ok(a) => a,
                                Err(_) => {
                                    proof {
                                        assert(false);
                                    }
                                    return Err(TransactionError::MissingOutpointScriptPublicKey);
                                },
                            };
                            address_eq(addr, &c_address)
                        },
                        _ => {
                            let mine = match BitcoinAddress::from_private_key(
                                private_key,
                                &addr.format,
                            ) {
                                Ok(a) => a,
                                Err(_) => {
                                    proof {
                                        assert(false);
                                    }
                                    return Err(TransactionError::MissingOutpointScriptPublicKey);
                                },
                            };
                            address_eq(addr, &mine)
                        },
                    };
                    proof {
                        assert(address_is_valid == signer_matches(
                            p.inputs@[j as int],
                            sk,
                            compressed,
                        ));
                    }
                    if address_is_valid && !input.is_signed {
                        handled = true;
                        let sighash: u8 = input.sighash_code.to_byte();
                        match addr.format {
                            BitcoinFormat::P2PKH => {
                                let preimage = match p2pkh_preimage_exec(&self.parameters, j) {
                                    Ok(v) => v,
                                    Err(e) => {
                                        proof {
                                            assert(false);
                                        }
                                        return Err(e);
                                    },
                                };
                                let signature = make_signature(&preimage, private_key, sighash);
                                let pk = private_key.to_public_key();
                                let pk_bytes = pk.serialize_chosen();
                                let mut pk_field_v: Vec<u8> = Vec::new();
                                pk_field_v.push(pk_bytes.len() as u8);
                                crate::address::append_bytes(&mut pk_field_v, &pk_bytes);
                                let mut script_sig = signature;
                                crate::address::append_bytes(&mut script_sig, &pk_field_v);
                                proof {
                                    assert(pk_field_v@ =~= pubkey_field(
                                        crate::address::pubkey_ser_bytes(
                                            crate::secp::pubkey_of(sk),
                                            compressed,
                                        ),
                                    ));
                                    assert(script_sig@ =~= p2pkh_scriptsig(
                                        p,
                                        j as int,
                                        sk,
                                        compressed,
                                    ));
                                    assert(input_signable(p.inputs@[j as int]));
                                }
                                result_input = BitcoinTransactionInput {
                                    outpoint: clone_outpoint(&input.outpoint),
                                    script_sig,
                                    sequence: clone_bytes(&input.sequence),
                                    sighash_code: input.sighash_code,
                                    witnesses: clone_witnesses(&input.witnesses),
                                    is_signed: true,
                                    additional_witness: clone_opt_pair(
                                        &input.additional_witness,
                                    ),
                                    witness_script_data: clone_opt_bytes(
                                        &input.witness_script_data,
                                    ),
                                };
                            },
                            BitcoinFormat::Bech32 => {
                                witnessy = true;
                                let preimage = match segwit_preimage_exec(&self.parameters, j) {
                                    Ok(v) => v,
                                    Err(e) => {
                                        proof {
                                            assert(!input_signable(p.inputs@[j as int]));
                                            assert(!sign_input_ok(p, j as int, sk, compressed));
                                            assert(!sign_ok(p, sk, compressed));
                                        }
                                        return Err(e);
                                    },
                                };
                                proof {
                                    assert(input_signable(p.inputs@[j as int]));
                                }
                                let signature = make_signature(&preimage, private_key, sighash);
                                let pk = private_key.to_public_key();
                                let pk_bytes = pk.serialize_compressed();
                                let mut pk_field_v: Vec<u8> = Vec::new();
                                pk_field_v.push(pk_bytes.len() as u8);
                                crate::address::append_bytes(&mut pk_field_v, &pk_bytes);
                                let mut wits = clone_witnesses(&input.witnesses);
                                let ghost base = wits.deep_view();
                                wits.push(signature);
                                wits.push(pk_field_v);
                                proof {
                                    assert(wits.deep_view() =~~= base + seq![
                                        segwit_sig(p, j as int, sk),
                                        pubkey_field(crate::secp::pubkey_of(sk)),
                                    ]);
                                }
                                result_input = BitcoinTransactionInput {
                                    outpoint: clone_outpoint(&input.outpoint),
                                    script_sig: clone_bytes(&input.script_sig),
                                    sequence: clone_bytes(&input.sequence),
                                    sighash_code: input.sighash_code,
                                    witnesses: wits,
                                    is_signed: true,
                                    additional_witness: clone_opt_pair(
                                        &input.additional_witness,
                                    ),
                                    witness_script_data: clone_opt_bytes(
                                        &input.witness_script_data,
                                    ),
                                };
                            },
                            BitcoinFormat::P2SH_P2WPKH => {
                                witnessy = true;
                                let rs = match &input.outpoint.redeem_script {
                                    Some(rs) => rs,
                                    None => {
                                        proof {
                                            assert(!input_signable(p.inputs@[j as int]));
                                            assert(!sign_input_ok(p, j as int, sk, compressed));
                                            assert(!sign_ok(p, sk, compressed));
                                        }
                                        return Err(
                                            TransactionError::InvalidInputs(
                                                String::from_str("P2SH_P2WPKH"),
                                            ),
                                        );
                                    },
                                };
                                let preimage = match segwit_preimage_exec(&self.parameters, j) {
                                    Ok(v) => v,
                                    Err(e) => {
                                        proof {
                                            assert(!input_signable(p.inputs@[j as int]));
                                            assert(!sign_input_ok(p, j as int, sk, compressed));
                                            assert(!sign_ok(p, sk, compressed));
                                        }
                                        return Err(e);
                                    },
                                };
                                proof {
                                    assert(input_signable(p.inputs@[j as int]));
                                }
                                let signature = make_signature(&preimage, private_key, sighash);
                                let pk = private_key.to_public_key();
                                let pk_bytes = pk.serialize_compressed();
                                let mut pk_field_v: Vec<u8> = Vec::new();
                                pk_field_v.push(pk_bytes.len() as u8);
                                crate::address::append_bytes(&mut pk_field_v, &pk_bytes);
                                let prefix = match variable_length_integer(rs.len() as u64) {
                                    Ok(v) => v,
                                    Err(e) => {
                                        proof {
                                            assert(false);
                                        }
                                        return Err(e);
                                    },
                                };
                                let mut script_sig = prefix;
                                crate::address::append_bytes(&mut script_sig, rs);
                                let mut wits = clone_witnesses(&input.witnesses);
                                let ghost base = wits.deep_view();
                                wits.push(signature);
                                wits.push(pk_field_v);
                                proof {
                                    assert(script_sig@ =~= script_field(
                                        p.inputs@[j as int].outpoint.redeem_script.unwrap()@,
                                    ));
                                    assert(wits.deep_view() =~~= base + seq![
                                        segwit_sig(p, j as int, sk),
                                        pubkey_field(crate::secp::pubkey_of(sk)),
                                    ]);
                                }
                                result_input = BitcoinTransactionInput {
                                    outpoint: clone_outpoint(&input.outpoint),
                                    script_sig,
                                    sequence: clone_bytes(&input.sequence),
                                    sighash_code: input.sighash_code,
                                    witnesses: wits,
                                    is_signed: true,
                                    additional_witness: clone_opt_pair(
                                        &input.additional_witness,
                                    ),
                                    witness_script_data: clone_opt_bytes(
                                        &input.witness_script_data,
                                    ),
                                };
                            },
                            BitcoinFormat::P2WSH => {
                                witnessy = true;
                                let rs = match &input.outpoint.redeem_script {
                                    Some(rs) => rs,
                                    None => {
                                        proof {
                                            assert(false);
                                        }
                                        return Err(
                                            TransactionError::InvalidInputs(
                                                String::from_str("P2WSH"),
                                            ),
                                        );
                                    },
                                };
                                let other: (Vec<u8>, bool) = match &input.additional_witness {
                                    Some(t) => (clone_bytes(&t.0), t.1),
                                    None => {
                                        proof {
                                            assert(!input_signable(p.inputs@[j as int]));
                                            assert(!sign_input_ok(p, j as int, sk, compressed));
                                            assert(!sign_ok(p, sk, compressed));
                                        }
                                        return Err(
                                            TransactionError::InvalidInputs(
                                                String::from_str("P2WSH"),
                                            ),
                                        );
                                    },
                                };
                                let preimage = match segwit_preimage_exec(&self.parameters, j) {
                                    Ok(v) => v,
                                    Err(e) => {
                                        proof {
                                            assert(!input_signable(p.inputs@[j as int]));
                                            assert(!sign_input_ok(p, j as int, sk, compressed));
                                            assert(!sign_ok(p, sk, compressed));
                                        }
                                        return Err(e);
                                    },
                                };
                                let signature = make_signature(&preimage, private_key, sighash);
                                let prefix = match variable_length_integer(rs.len() as u64) {
                                    Ok(v) => v,
                                    Err(e) => {
                                        proof {
                                            assert(false);
                                        }
                                        return Err(e);
                                    },
                                };
                                let mut ser_script = prefix;
                                crate::address::append_bytes(&mut ser_script, rs);
                                let mut wits = clone_witnesses(&input.witnesses);
                                let ghost base = wits.deep_view();
                                let ghost sig_spec = segwit_sig(p, j as int, sk);
                                if other.1 {
                                    wits.push(other.0);
                                    wits.push(signature);
                                } else {
                                    wits.push(signature);
                                    wits.push(other.0);
                                }
                                let ghost mid = wits.deep_view();
                                match &input.witness_script_data {
                                    Some(d) => {
                                        if d.len() > 255 {
                                            proof {
                                                assert(!input_signable(p.inputs@[j as int]));
                                                assert(!sign_input_ok(p, j as int, sk, compressed));
                                                assert(!sign_ok(p, sk, compressed));
                                            }
                                            return Err(
                                                TransactionError::InvalidInputs(
                                                    String::from_str("witness script data"),
                                                ),
                                            );
                                        }
                                        let mut data_field: Vec<u8> = Vec::new();
                                        data_field.push(d.len() as u8);
                                        crate::address::append_bytes(&mut data_field, d);
                                        wits.push(data_field);
                                    },
                                    None => {},
                                }
                                let ghost mid2 = wits.deep_view();
                                wits.push(ser_script);
                                proof {
                                    let old_i = p.inputs@[j as int];
                                    let other_spec = old_i.additional_witness.unwrap();
                                    assert(mid =~~= base + (if other_spec.1 {
                                        seq![other_spec.0@, sig_spec]
                                    } else {
                                        seq![sig_spec, other_spec.0@]
                                    }));
                                    assert(mid2 =~~= mid + (match old_i.witness_script_data {
                                        Some(d) => seq![seq![d@.len() as u8] + d@],
                                        None => Seq::<Seq<u8>>::empty(),
                                    }));
                                    assert(wits.deep_view() =~~= mid2 + seq![
                                        script_field(old_i.outpoint.redeem_script.unwrap()@),
                                    ]);
                                    assert(wits.deep_view() =~~= base + (if other_spec.1 {
                                        seq![other_spec.0@, sig_spec]
                                    } else {
                                        seq![sig_spec, other_spec.0@]
                                    }) + (match old_i.witness_script_data {
                                        Some(d) => seq![seq![d@.len() as u8] + d@],
                                        None => Seq::<Seq<u8>>::empty(),
                                    }) + seq![
                                        script_field(old_i.outpoint.redeem_script.unwrap()@),
                                    ]);
                                    assert(input_signable(p.inputs@[j as int]));
                                }
                                result_input = BitcoinTransactionInput {
                                    outpoint: clone_outpoint(&input.outpoint),
                                    script_sig: Vec::new(),
                                    sequence: clone_bytes(&input.sequence),
                                    sighash_code: input.sighash_code,
                                    witnesses: wits,
                                    is_signed: true,
                                    additional_witness: clone_opt_pair(
                                        &input.additional_witness,
                                    ),
                                    witness_script_data: clone_opt_bytes(
                                        &input.witness_script_data,
                                    ),
                                };
                            },
                        }
                    }
                },
            }
            proof {
                if handled {
                    assert(signs_here(p, j as int, sk, compressed));
                    assert(signed_input_rel(
                        p,
                        j as int,
                        sk,
                        compressed,
                        p.inputs@[j as int],
                        result_input,
                    ));
                } else {
                    assert(!signs_here(p, j as int, sk, compressed));
                    assert(signed_input_rel(
                        p,
                        j as int,
                        sk,
                        compressed,
                        p.inputs@[j as int],
                        result_input,
                    ));
                }
                assert(witnessy == witness_signed_at(p, j as int, sk, compressed));
                assert(sign_input_ok(p, j as int, sk, compressed));
            }
            let ghost prev = new_inputs@;
            new_inputs.push(result_input);
            let new_seg: bool = seg_any || witnessy;
            proof {
                assert(new_inputs@ =~= prev + seq![result_input]);
                if new_seg {
                    if witnessy {
                        assert(witness_signed_at(p, j as int, sk, compressed));
                        assert(exists|k: int|
                            0 <= k < j + 1 && #[trigger] witness_signed_at(
                                p,
                                k,
                                sk,
                                compressed,
                            ));
                    } else {
                        let k = choose|k: int|
                            0 <= k < j && #[trigger] witness_signed_at(p, k, sk, compressed);
                        assert(0 <= k < j + 1 && witness_signed_at(p, k, sk, compressed));
                    }
                } else {
                    if exists|k: int|
                        0 <= k < j + 1 && #[trigger] witness_signed_at(p, k, sk, compressed) {
                        let k = choose|k: int|
                            0 <= k < j + 1 && #[trigger] witness_signed_at(
                                p,
                                k,
                                sk,
                                compressed,
                            );
                        if k < j {
                            assert(seg_any);
                        } else {
                            assert(witnessy);
                        }
                        assert(false);
                    }
                }
            }
            seg_any = new_seg;
            j = j + 1;
        }
        proof {
            assert(sign_ok(p, sk, compressed));
        }
        let mut new_outputs: Vec<BitcoinTransactionOutput> = Vec::new();
        let m: usize = self.parameters.outputs.len();
        let mut k: usize = 0;
        while k < m
            invariant
                k <= m,
                m == p.outputs@.len(),
                self.parameters == p,
                sign_ok(p, sk, compressed),
                new_outputs@.len() == k,
                forall|x: int|
                    0 <= x < k ==> output_eq(#[trigger] new_outputs@[x], p.outputs@[x]),
            decreases m - k,
        {
            let o = &self.parameters.outputs[k];
            let cloned = BitcoinTransactionOutput {
                amount: o.amount,
                script_pub_key: clone_bytes(&o.script_pub_key),
            };
            let ghost prevo = new_outputs@;
            new_outputs.push(cloned);
            proof {
                assert(new_outputs@ =~= prevo + seq![cloned]);
            }
            k = k + 1;
        }
        Ok(
            BitcoinTransaction {
                parameters: BitcoinTransactionParameters {
                    version: self.parameters.version,
                    inputs: new_inputs,
                    outputs: new_outputs,
                    lock_time: self.parameters.lock_time,
                    segwit_flag: self.parameters.segwit_flag || seg_any,
                },
            },
        )
    }
}

} // verus!
