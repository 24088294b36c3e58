use snarkos_network::errors::NetworkError;
use snarkos_network::version::Version;

#[test]
fn version_round_trip() {
    let v = Version::new(7, 4131, 0x0102_0304_0506_0708);
    let bytes = v.serialize().unwrap();
    assert_eq!(
        bytes,
        vec![7, 0, 0, 0, 0x23, 0x10, 8, 7, 6, 5, 4, 3, 2, 1]
    );
    assert_eq!(Version::deserialize(&bytes), Ok(v));
}

#[test]
fn version_rejects_other_lengths() {
    assert_eq!(
        Version::deserialize(&[]),
        Err(NetworkError::InvalidHandshake)
    );
    assert_eq!(
        Version::deserialize(&[0u8; 13]),
        Err(NetworkError::InvalidHandshake)
    );
    assert_eq!(
        Version::deserialize(&[0u8; 15]),
        Err(NetworkError::InvalidHandshake)
    );
}

#[test]
fn version_deserialize_takes_any_input() {
    for len in 0..40usize {
        let bytes: Vec<u8> = (0..len).map(|i| (i * 37 + len) as u8).collect();
        let result = Version::deserialize(&bytes);
        assert_eq!(result.is_ok(), len == 14);
        if let Ok(version) = result {
            assert_eq!(version.serialize().unwrap(), bytes);
        }
    }
    let top = Version::new(u32::MAX, u16::MAX, u64::MAX);
    assert_eq!(top.serialize().unwrap(), vec![0xff; 14]);
    assert_eq!(Version::deserialize(&[0xff; 14]), Ok(top));
    let zero = Version::new(0, 0, 0);
    assert_eq!(Version::deserialize(&[0; 14]), Ok(zero));
}

#[test]
fn version_fields_are_little_endian() {
    let bytes = [
        0x04, 0x03, 0x02, 0x01, 0x22, 0x11, 0x08, 0x07, 0x06, 0x05, 0x04, 0x03, 0x02, 0x01,
    ];
    let version = Version::deserialize(&bytes).unwrap();
    assert_eq!(version.version, 0x0102_0304);
    assert_eq!(version.listening_port, 0x1122);
    assert_eq!(version.node_id, 0x0102_0304_0506_0708);
}

#[test]
fn every_fourteen_bytes_are_a_wire_form() {
    let mut seed: u64 = 0x9e37_79b9_7f4a_7c15;
    for _ in 0..200 {
        let mut bytes = [0u8; 14];
        for byte in bytes.iter_mut() {
            seed = seed.wrapping_mul(6364136223846793005).wrapping_add(1442695040888963407);
            *byte = (seed >> 56) as u8;
        }
        let version = Version::deserialize(&bytes).unwrap();
        assert_eq!(version.serialize().unwrap(), bytes.to_vec());
    }
}
