use clique::bytes::{copy_range, minimal_be_bytes, push_be, read_be, strip_zeros};
use clique::error::{SigningError, ValidationError};
use clique::header::{Header, Signature, NONCE_AUTH_VOTE, NONCE_DROP_VOTE};
use clique::params::CliqueParams;
use clique::seal::{
    hash, public_to_address, recover, recover_key, recover_signer, secret_to_public, sig_hash,
    sign, sign_header, Public,
};
use clique::types::{Address, H256, U256};

fn hex(text: &str) -> Vec<u8> {
    let digits: Vec<u8> = text
        .bytes()
        .map(|c| match c {
            b'0'..=b'9' => c - b'0',
            b'a'..=b'f' => c - b'a' + 10,
            _ => panic!("not a hex digit"),
        })
        .collect();
    digits.chunks(2).map(|pair| pair[0] * 16 + pair[1]).collect()
}

fn h256(text: &str) -> H256 {
    H256::from_bytes(&hex(text)).unwrap()
}

fn address(text: &str) -> Address {
    Address::from_bytes(&hex(text)).unwrap()
}

fn secret(n: u128) -> H256 {
    H256 { hi: 0, lo: n }
}

fn blank_header(number: u64, extra_len: usize) -> Header {
    Header {
        parent_hash: H256::zero(),
        uncles_hash: H256::zero(),
        author: Address::zero(),
        state_root: H256::zero(),
        transactions_root: H256::zero(),
        receipts_root: H256::zero(),
        log_bloom: vec![0u8; 256],
        difficulty: 1,
        number,
        gas_limit: 8_000_000,
        gas_used: 0,
        timestamp: 1_500_000_000 + number * 15,
        extra_data: vec![0u8; extra_len],
        mix_hash: H256::zero(),
        nonce: NONCE_DROP_VOTE,
    }
}

#[test]
fn params_keep_period_and_epoch() {
    let params = CliqueParams::new(15, 30000);
    assert_eq!(params.period, 15);
    assert_eq!(params.epoch, 30000);
}

#[test]
fn params_from_absent_values_are_zero() {
    assert_eq!(CliqueParams::from_optional(None, None), CliqueParams { period: 0, epoch: 0 });
    assert_eq!(
        CliqueParams::from_optional(Some(15), None),
        CliqueParams { period: 15, epoch: 0 }
    );
    assert_eq!(
        CliqueParams::from_optional(None, Some(30)),
        CliqueParams { period: 0, epoch: 30 }
    );
}

#[test]
fn minimal_big_endian_has_no_leading_zero() {
    assert_eq!(minimal_be_bytes(0), Vec::<u8>::new());
    assert_eq!(minimal_be_bytes(1), vec![1]);
    assert_eq!(minimal_be_bytes(0x7f), vec![0x7f]);
    assert_eq!(minimal_be_bytes(0x0100), vec![1, 0]);
    assert_eq!(minimal_be_bytes(0x0400_0000_00), vec![4, 0, 0, 0, 0]);
    assert_eq!(minimal_be_bytes(u64::MAX), vec![0xff; 8]);
}

#[test]
fn big_endian_reads_what_was_written() {
    let mut out = vec![0xaa];
    push_be(&mut out, 0x0102_0304, 4);
    assert_eq!(out, vec![0xaa, 1, 2, 3, 4]);
    assert_eq!(read_be(&out, 1, 4), 0x0102_0304);
    assert_eq!(read_be(&out, 0, 0), 0);
    assert_eq!(read_be(&out, 3, 2), 0x0304);
    let mut wide = Vec::new();
    push_be(&mut wide, u128::MAX, 16);
    assert_eq!(wide, vec![0xff; 16]);
    assert_eq!(read_be(&wide, 0, 16), u128::MAX);
    let mut cut = Vec::new();
    push_be(&mut cut, 0x0102_0304, 2);
    assert_eq!(cut, vec![3, 4]);
}

#[test]
fn strip_zeros_drops_only_the_front() {
    assert_eq!(strip_zeros(&vec![0, 0, 5, 0, 7]), vec![5, 0, 7]);
    assert_eq!(strip_zeros(&vec![0, 0, 0]), Vec::<u8>::new());
    assert_eq!(strip_zeros(&vec![]), Vec::<u8>::new());
    assert_eq!(strip_zeros(&vec![9, 0]), vec![9, 0]);
    assert_eq!(copy_range(&[1, 2, 3, 4], 1, 3), vec![2, 3]);
    assert_eq!(copy_range(&[1, 2, 3, 4], 2, 2), Vec::<u8>::new());
}

#[test]
fn address_bytes_round_trip() {
    let bytes = hex("7e5f4552091a69125d5dfcb7b8c2659029395bdf");
    let a = Address::from_bytes(&bytes).unwrap();
    assert_eq!(a.hi, 0x7e5f4552);
    assert_eq!(a.lo, 0x091a69125d5dfcb7b8c2659029395bdf);
    assert_eq!(a.to_vec(), bytes);
    assert_eq!(Address::from_bytes(&bytes[1..]), None);
    assert_eq!(Address::from_bytes(&[0u8; 21]), None);
    let mut padded = vec![0xeeu8; 3];
    padded.extend_from_slice(&bytes);
    assert_eq!(Address::read(&padded, 3), a);
    assert!(Address::zero().is_zero());
    assert!(!a.is_zero());
    assert_eq!(Address::zero().to_vec(), vec![0u8; 20]);
}

#[test]
fn addresses_are_ordered_as_their_bytes() {
    let low = address("00000000ffffffffffffffffffffffffffffffff");
    let high = address("0000000100000000000000000000000000000000");
    assert!(low.is_before(&high));
    assert!(!high.is_before(&low));
    assert!(!low.is_before(&low));
    assert!(low.to_vec() < high.to_vec());
}

#[test]
fn hash_bytes_round_trip() {
    let bytes = hex("d4e56740f876aef8c010b86a40d5f56745a118d0906a34e69aec8c0db1cb8fa3");
    let h = H256::from_bytes(&bytes).unwrap();
    assert_eq!(h.hi, 0xd4e56740f876aef8c010b86a40d5f567);
    assert_eq!(h.lo, 0x45a118d0906a34e69aec8c0db1cb8fa3);
    assert_eq!(h.to_vec(), bytes);
    assert_eq!(H256::from_bytes(&bytes[..31]), None);
    assert!(H256::zero().is_zero());
    assert!(!h.is_zero());
}

#[test]
fn u256_compares_both_halves() {
    let small = U256::from_u64(7);
    assert_eq!(small, U256 { hi: 0, lo: 7 });
    let big = U256 { hi: 1, lo: 0 };
    assert!(big.is_greater(&small));
    assert!(!small.is_greater(&big));
    assert!(!small.is_greater(&small));
    assert!(U256 { hi: 1, lo: 3 }.is_greater(&U256 { hi: 1, lo: 2 }));
}

#[test]
fn signature_bytes_round_trip() {
    let mut bytes = vec![0u8; 65];
    for (i, b) in bytes.iter_mut().enumerate() {
        *b = i as u8 + 1;
    }
    let signature = Signature::read(&bytes, 0);
    assert_eq!(signature.v, 65);
    assert_eq!(signature.r.to_vec(), bytes[..32].to_vec());
    assert_eq!(signature.s.to_vec(), bytes[32..64].to_vec());
    assert_eq!(signature.to_vec(), bytes);
    assert_eq!(signature.compact_vec(), bytes[..64].to_vec());
}

#[test]
fn hash_of_the_first_block_of_the_main_network() {
    let header = Header {
        parent_hash: H256::zero(),
        uncles_hash: h256("1dcc4de8dec75d7aab85b567b6ccd41ad312451b948a7413f0a142fd40d49347"),
        author: Address::zero(),
        state_root: h256("d7f8974fb5ac78d9ac099b9ad5018bedc2ce0a72dad1827a1709da30580f0544"),
        transactions_root: h256(
            "56e81f171bcc55a6ff8345e692c0f86e5b48e01b996cadc001622fb5e363b421",
        ),
        receipts_root: h256("56e81f171bcc55a6ff8345e692c0f86e5b48e01b996cadc001622fb5e363b421"),
        log_bloom: vec![0u8; 256],
        difficulty: 0x4_0000_0000,
        number: 0,
        gas_limit: 5000,
        gas_used: 0,
        timestamp: 0,
        extra_data: hex("11bbe8db4e347b4e8c937c1c8370e4b5ed33adb3db69cbdb7a38e1e50b1b82fa"),
        mix_hash: H256::zero(),
        nonce: 0x42,
    };
    assert_eq!(
        hash(&header),
        h256("d4e56740f876aef8c010b86a40d5f56745a118d0906a34e69aec8c0db1cb8fa3")
    );
}

#[test]
fn header_hash_is_keccak_of_the_rlp_stream() {
    let mut header = blank_header(77, 97);
    header.author = address("7e5f4552091a69125d5dfcb7b8c2659029395bdf");
    header.difficulty = 2;
    header.gas_used = 21000;
    header.nonce = NONCE_AUTH_VOTE;
    header.extra_data[5] = 9;
    let mut stream = rlp::RlpStream::new_list(15);
    stream.append(&header.parent_hash.to_vec());
    stream.append(&header.uncles_hash.to_vec());
    stream.append(&header.author.to_vec());
    stream.append(&header.state_root.to_vec());
    stream.append(&header.transactions_root.to_vec());
    stream.append(&header.receipts_root.to_vec());
    stream.append(&header.log_bloom);
    stream.append(&header.difficulty);
    stream.append(&header.number);
    stream.append(&header.gas_limit);
    stream.append(&header.gas_used);
    stream.append(&header.timestamp);
    stream.append(&header.extra_data);
    stream.append(&header.mix_hash.to_vec());
    stream.append(&vec![0xffu8; 8]);
    let expected = keccak_hash::keccak(stream.out());
    assert_eq!(hash(&header).to_vec(), expected.0.to_vec());
}

#[test]
fn seal_hash_leaves_the_signature_out() {
    let mut header = blank_header(5, 97);
    let before = sig_hash(&header).unwrap();
    for byte in header.extra_data[32..].iter_mut() {
        *byte = 0xab;
    }
    assert_eq!(sig_hash(&header).unwrap(), before);
    assert_ne!(hash(&header), before);
    let mut unsigned = blank_header(5, 32);
    assert_eq!(hash(&unsigned), before);
    unsigned.extra_data[0] = 1;
    header.extra_data[0] = 1;
    assert_eq!(sig_hash(&header).unwrap(), hash(&unsigned));
    assert_ne!(sig_hash(&header).unwrap(), before);
}

#[test]
fn seal_hash_needs_room_for_a_signature() {
    assert_eq!(sig_hash(&blank_header(5, 64)), Err(ValidationError::MalformedExtraData));
    assert_eq!(sig_hash(&blank_header(5, 0)), Err(ValidationError::MalformedExtraData));
    assert!(sig_hash(&blank_header(5, 65)).is_ok());
    assert_eq!(sig_hash(&blank_header(5, 65)).unwrap(), hash(&blank_header(5, 0)));
}

#[test]
fn extract_signature_reads_the_last_65_bytes() {
    let mut header = blank_header(1, 100);
    for (i, byte) in header.extra_data.iter_mut().enumerate() {
        *byte = i as u8;
    }
    let signature = header.extract_signature().unwrap();
    assert_eq!(signature.to_vec(), (35u8..100).collect::<Vec<u8>>());
    assert_eq!(
        blank_header(1, 64).extract_signature(),
        Err(ValidationError::MalformedExtraData)
    );
    assert!(blank_header(1, 65).extract_signature().is_ok());
}

#[test]
fn embed_signature_replaces_the_last_65_bytes() {
    let mut header = blank_header(1, 100);
    for byte in header.extra_data.iter_mut() {
        *byte = 7;
    }
    let signature = Signature::read(&(1u8..=65).collect::<Vec<u8>>(), 0);
    assert_eq!(header.embed_signature(&signature), Ok(()));
    assert_eq!(header.extra_data.len(), 100);
    assert_eq!(header.extra_data[..35].to_vec(), vec![7u8; 35]);
    assert_eq!(header.extra_data[35..].to_vec(), (1u8..=65).collect::<Vec<u8>>());
    assert_eq!(header.extract_signature(), Ok(signature));
    let mut short = blank_header(1, 64);
    assert_eq!(short.embed_signature(&signature), Err(ValidationError::MalformedExtraData));
    assert_eq!(short.extra_data, vec![0u8; 64]);
}

#[test]
fn public_key_and_address_of_the_secret_one() {
    let key = secret_to_public(&secret(1)).unwrap();
    assert_eq!(
        key.x,
        h256("79be667ef9dcbbac55a06295ce870b07029bfcdb2dce28d959f2815b16f81798")
    );
    assert_eq!(
        key.y,
        h256("483ada7726a3c4655da4fbfc0e1108a8fd17b448a68554199c47d08ffb10d4b8")
    );
    assert_eq!(public_to_address(&key), address("7e5f4552091a69125d5dfcb7b8c2659029395bdf"));
    assert_eq!(key.to_vec().len(), 64);
    assert_eq!(Public::read(&key.to_vec(), 0), key);
}

#[test]
fn secret_zero_is_refused() {
    assert_eq!(secret_to_public(&secret(0)), Err(SigningError::KeyRefused));
    assert_eq!(sign(&secret(0), &H256 { hi: 1, lo: 2 }), Err(SigningError::KeyRefused));
    let over = H256 { hi: u128::MAX, lo: u128::MAX };
    assert_eq!(secret_to_public(&over), Err(SigningError::KeyRefused));
}

#[test]
fn signing_twice_gives_the_same_signature() {
    let digest = h256("d4e56740f876aef8c010b86a40d5f56745a118d0906a34e69aec8c0db1cb8fa3");
    let first = sign(&secret(1), &digest).unwrap();
    let second = sign(&secret(1), &digest).unwrap();
    assert_eq!(first, second);
    assert!(first.v <= 3);
    let other = sign(&secret(2), &digest).unwrap();
    assert_ne!(first, other);
}

#[test]
fn signature_of_one_over_one() {
    let one = H256 { hi: 0, lo: 1 };
    let signature = sign(&one, &one).unwrap();
    assert_eq!(
        signature.r,
        h256("6673ffad2147741f04772b6f921f0ba6af0c1e77fc439e65c36dedf4092e8898")
    );
    assert_eq!(
        signature.s,
        h256("4c1a971652e0ada880120ef8025e709fff2080c4a39aae068d12eed009b68c89")
    );
    assert_eq!(signature.v, 1);
}

#[test]
fn recovering_what_was_signed_gives_the_signer() {
    let digest = h256("56e81f171bcc55a6ff8345e692c0f86e5b48e01b996cadc001622fb5e363b421");
    for n in 1..6u128 {
        let signature = sign(&secret(n), &digest).unwrap();
        let key = secret_to_public(&secret(n)).unwrap();
        assert_eq!(recover_key(&digest, &signature), Ok(key));
    }
}

#[test]
fn a_signature_that_is_none_is_invalid() {
    let digest = h256("56e81f171bcc55a6ff8345e692c0f86e5b48e01b996cadc001622fb5e363b421");
    let nothing = Signature { r: H256::zero(), s: H256::zero(), v: 0 };
    assert_eq!(recover_key(&digest, &nothing), Err(ValidationError::InvalidSignature));
    let mut signature = sign(&secret(1), &digest).unwrap();
    signature.v = 4;
    assert_eq!(recover_key(&digest, &signature), Err(ValidationError::InvalidSignature));
    signature.v = 29;
    assert_eq!(recover_key(&digest, &signature), Err(ValidationError::InvalidSignature));
}

#[test]
fn sealed_header_recovers_to_its_signer() {
    let mut header = blank_header(9, 97);
    header.extra_data[3] = 0x55;
    let signature = sign_header(&secret(1), &header).unwrap();
    let digest = sig_hash(&header).unwrap();
    assert_eq!(signature, sign(&secret(1), &digest).unwrap());
    header.embed_signature(&signature).unwrap();
    assert_eq!(sig_hash(&header).unwrap(), digest);
    assert_eq!(recover(&header), secret_to_public(&secret(1)).map_err(|_| unreachable!()));
    assert_eq!(recover_signer(&header), Ok(address("7e5f4552091a69125d5dfcb7b8c2659029395bdf")));
    header.timestamp += 1;
    assert_ne!(recover_signer(&header), Ok(address("7e5f4552091a69125d5dfcb7b8c2659029395bdf")));
}

#[test]
fn recover_refuses_short_and_unsigned_headers() {
    assert_eq!(recover(&blank_header(9, 64)), Err(ValidationError::MalformedExtraData));
    assert_eq!(recover_signer(&blank_header(9, 10)), Err(ValidationError::MalformedExtraData));
    assert_eq!(recover(&blank_header(9, 97)), Err(ValidationError::InvalidSignature));
    assert_eq!(recover_signer(&blank_header(9, 97)), Err(ValidationError::InvalidSignature));
    assert_eq!(sign_header(&secret(1), &blank_header(9, 64)), Err(SigningError::NoRoomForSeal));
    assert_eq!(sign_header(&secret(0), &blank_header(9, 97)), Err(SigningError::KeyRefused));
}
