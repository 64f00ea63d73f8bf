//! Wire-format tests: variable-length integers, witness programs, and
//! transaction round trips.
use gyu_bitcoin::transaction::{
    variable_length_integer, read_variable_length_integer, BitcoinTransaction,
    BitcoinTransactionOutput, TransactionError,
};
use gyu_bitcoin::witness_program::{WitnessProgram, WitnessProgramError};
use gyu_bitcoin::amount::BitcoinAmount;

#[test]
fn variable_length_integer_encodings() {
    assert_eq!(variable_length_integer(0).unwrap(), vec![0x00]);
    assert_eq!(variable_length_integer(252).unwrap(), vec![0xfc]);
    assert_eq!(variable_length_integer(253).unwrap(), vec![0xfd, 0xfd, 0x00]);
    assert_eq!(variable_length_integer(65535).unwrap(), vec![0xfd, 0xff, 0xff]);
    assert_eq!(variable_length_integer(65536).unwrap(), vec![0xfe, 0x00, 0x00, 0x01, 0x00]);
    assert_eq!(
        variable_length_integer(0x1_0000_0000).unwrap(),
        vec![0xff, 0x00, 0x00, 0x00, 0x00, 0x01, 0x00, 0x00, 0x00]
    );
}

#[test]
fn variable_length_integer_round_trip() {
    for v in [0u64, 1, 252, 253, 300, 65535, 65536, 70000, 0xFFFF_FFFF, 0x1_0000_0000] {
        let enc = variable_length_integer(v).unwrap();
        let (decoded, used) = read_variable_length_integer(&enc, 0).unwrap();
        assert_eq!(decoded, v);
        assert_eq!(used, enc.len());
    }
}

#[test]
fn variable_length_integer_rejects_non_canonical() {
    // 0xfd marker carrying a value that fits in one byte.
    let r = read_variable_length_integer(&vec![0xfd, 0x10, 0x00], 0);
    assert_eq!(r, Err(TransactionError::InvalidVariableSizeInteger(16)));
    // Truncated stream.
    let r = read_variable_length_integer(&vec![0xfd, 0x10], 0);
    assert_eq!(r, Err(TransactionError::EndOfStream));
}

#[test]
fn witness_program_rules() {
    // version 0 with a 20-byte program is valid.
    let mut data = vec![0x00, 20];
    data.extend(vec![0xaa; 20]);
    let w = WitnessProgram::new(&data).unwrap();
    assert_eq!(w.version, 0);
    assert_eq!(w.program.len(), 20);
    // version 0 must have a 20- or 32-byte program.
    let mut data = vec![0x00, 21];
    data.extend(vec![0xaa; 21]);
    assert_eq!(
        WitnessProgram::new(&data),
        Err(WitnessProgramError::InvalidProgramLengthForVersion(21, 0))
    );
    // versions above 16 are rejected.
    let mut data = vec![17, 20];
    data.extend(vec![0xbb; 20]);
    assert_eq!(WitnessProgram::new(&data), Err(WitnessProgramError::InvalidVersion(17)));
    // declared and actual lengths must agree.
    let data = vec![0x00, 5, 1, 2, 3];
    assert_eq!(
        WitnessProgram::new(&data),
        Err(WitnessProgramError::MismatchedProgramLength(3, 5))
    );
    // programs shorter than two bytes are rejected.
    let data = vec![0x00, 1, 9];
    assert_eq!(WitnessProgram::new(&data), Err(WitnessProgramError::InvalidProgramLength(1)));
    // the scriptPubKey encodes the version as an opcode.
    let mut data = vec![0x01, 0x02, 0xab, 0xcd];
    let w = WitnessProgram::new(&data).unwrap();
    assert_eq!(w.to_scriptpubkey(), vec![0x51, 0x02, 0xab, 0xcd]);
    data = vec![0x00, 0x02, 0xab, 0xcd];
    // version 0 of length 2 fails validation.
    assert_eq!(
        WitnessProgram::new(&data),
        Err(WitnessProgramError::InvalidProgramLengthForVersion(2, 0))
    );
}

fn legacy_tx_bytes() -> Vec<u8> {
    let mut tx = vec![0x01, 0x00, 0x00, 0x00]; // version 1
    tx.push(0x01); // one input
    tx.extend(vec![0x11; 32]); // outpoint txid (wire order)
    tx.extend(vec![0x00, 0x00, 0x00, 0x00]); // vout 0
    // scriptSig: two bytes laid out so its leading push length names the
    // trailing sighash byte
    tx.push(0x02);
    tx.push(0x01);
    tx.push(0x01);
    tx.extend(vec![0xff, 0xff, 0xff, 0xff]); // sequence
    tx.push(0x01); // one output
    tx.extend(vec![0xe8, 0x03, 0x00, 0x00, 0x00, 0x00, 0x00, 0x00]); // 1000 sat
    tx.push(0x01); // script length
    tx.push(0x51);
    tx.extend(vec![0x00, 0x00, 0x00, 0x00]); // locktime
    tx
}

#[test]
fn transaction_round_trip_legacy() {
    let bytes = legacy_tx_bytes();
    let tx = BitcoinTransaction::from_transaction_bytes(&bytes).unwrap();
    assert_eq!(tx.to_transaction_bytes().unwrap(), bytes);
}

#[test]
fn transaction_round_trip_segwit_no_witness() {
    // segwit marker and flag, one input with an empty witness stack.
    let mut tx = vec![0x01, 0x00, 0x00, 0x00];
    tx.push(0x00); // marker
    tx.push(0x01); // flag
    tx.push(0x01); // one input
    tx.extend(vec![0x22; 32]);
    tx.extend(vec![0x01, 0x00, 0x00, 0x00]);
    tx.push(0x00); // empty scriptSig
    tx.extend(vec![0xfe, 0xff, 0xff, 0xff]);
    tx.push(0x01); // one output
    tx.extend(vec![0x40, 0x42, 0x0f, 0x00, 0x00, 0x00, 0x00, 0x00]);
    tx.push(0x01);
    tx.push(0x51);
    tx.push(0x00); // empty witness stack for the input
    tx.extend(vec![0x05, 0x00, 0x00, 0x00]); // locktime
    let parsed = BitcoinTransaction::from_transaction_bytes(&tx).unwrap();
    assert_eq!(parsed.to_transaction_bytes().unwrap(), tx);
}

#[test]
fn transaction_round_trip_segwit_with_witness() {
    let mut tx = vec![0x02, 0x00, 0x00, 0x00];
    tx.push(0x00);
    tx.push(0x01);
    tx.push(0x01); // one input
    tx.extend(vec![0x33; 32]);
    tx.extend(vec![0x00, 0x00, 0x00, 0x00]);
    tx.push(0x00); // empty scriptSig (native segwit)
    tx.extend(vec![0xff, 0xff, 0xff, 0xff]);
    tx.push(0x01);
    tx.extend(vec![0x10, 0x27, 0x00, 0x00, 0x00, 0x00, 0x00, 0x00]);
    tx.push(0x01);
    tx.push(0x51);
    // witness: two items, a 3-byte pseudo-signature and a 2-byte item
    tx.push(0x02);
    tx.extend(vec![0x03, 0xde, 0xad, 0x01]);
    tx.extend(vec![0x02, 0xbe, 0xef]);
    tx.extend(vec![0x00, 0x00, 0x00, 0x00]);
    let parsed = BitcoinTransaction::from_transaction_bytes(&tx).unwrap();
    assert_eq!(parsed.to_transaction_bytes().unwrap(), tx);
    // the parsed input is marked signed by its nonempty witness
    assert!(parsed.parameters.inputs[0].is_signed);
}

#[test]
fn transaction_rejects_bad_segwit_flag() {
    let mut tx = vec![0x01, 0x00, 0x00, 0x00];
    tx.push(0x00); // zero inputs -> segwit path
    tx.push(0x02); // invalid flag
    let r = BitcoinTransaction::from_transaction_bytes(&tx);
    assert_eq!(r, Err(TransactionError::InvalidSegwitFlag(2)));
}

#[test]
fn output_serialize_layout() {
    let out = BitcoinTransactionOutput {
        amount: BitcoinAmount::from_satoshi(1000).unwrap(),
        script_pub_key: vec![0x51],
    };
    let ser = out.serialize().unwrap();
    assert_eq!(ser, vec![0xe8, 0x03, 0, 0, 0, 0, 0, 0, 0x01, 0x51]);
}
