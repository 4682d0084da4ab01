use byte_checksum::sum_slice;

#[test]
fn empty_slice() {
    let empty: &[u8] = &[];

    assert_eq!(sum_slice(&empty), 0);
}

#[test]
fn non_empty_slice() {
    let non_empty: &[u8] = &[255, 254, 127, 126];

    assert_eq!(sum_slice(&non_empty), 250);
}

#[test]
fn single_byte() {
    assert_eq!(sum_slice(&[42]), 42);
}

#[test]
fn wraps_past_255() {
    // 200 + 100 = 300; 300 mod 256 = 44
    assert_eq!(sum_slice(&[200, 100]), 44);
}

#[test]
fn matches_plain_modular_sum() {
    let data: [u8; 6] = [17, 250, 3, 99, 180, 7];
    let mut total: u32 = 0;
    for b in data.iter() {
        total += *b as u32;
    }
    assert_eq!(sum_slice(&data) as u32, total % 256);
}

#[test]
fn order_does_not_matter() {
    let forward: [u8; 5] = [9, 200, 33, 250, 1];
    let shuffled: [u8; 5] = [250, 1, 9, 33, 200];
    assert_eq!(sum_slice(&forward), sum_slice(&shuffled));
}

#[test]
fn repeated_calls_agree() {
    let data: [u8; 3] = [1, 2, 3];
    let first: u8 = sum_slice(&data);
    let second: u8 = sum_slice(&data);
    assert_eq!(first, second);
}
