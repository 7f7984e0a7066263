use png_carver::naming::{output_name, NAME_DIGITS};

#[test]
fn first_names() {
    assert_eq!(output_name(0), "000000000.png");
    assert_eq!(output_name(1), "000000001.png");
    assert_eq!(output_name(2), "000000002.png");
    assert_eq!(output_name(9), "000000009.png");
    assert_eq!(output_name(10), "000000010.png");
    assert_eq!(output_name(42), "000000042.png");
}

#[test]
fn names_are_padded_to_nine_digits() {
    assert_eq!(NAME_DIGITS, 9);
    assert_eq!(output_name(123), "000000123.png");
    assert_eq!(output_name(12345678), "012345678.png");
    assert_eq!(output_name(123456789), "123456789.png");
    assert_eq!(output_name(999999999), "999999999.png");
    assert_eq!(output_name(100000000), "100000000.png");
}

#[test]
fn long_numbers_are_written_in_full() {
    assert_eq!(output_name(1000000000), "1000000000.png");
    assert_eq!(output_name(4294967295), "4294967295.png");
    assert_eq!(output_name(4294967296), "4294967296.png");
    assert_eq!(output_name(u64::MAX), "18446744073709551615.png");
}

#[test]
fn names_agree_with_std_formatting() {
    let mut id: u64 = 0;
    for step in 0..200u64 {
        assert_eq!(output_name(id), format!("{:09}.png", id));
        id = id.wrapping_mul(31).wrapping_add(step * 7919 + 1);
    }
    for exponent in 0..20u32 {
        let id = 10u64.pow(exponent.min(19));
        assert_eq!(output_name(id), format!("{:09}.png", id));
        assert_eq!(output_name(id - 1), format!("{:09}.png", id - 1));
    }
}

#[test]
fn names_of_different_numbers_differ() {
    let ids = [0u64, 1, 9, 10, 11, 99, 100, 999999999, 1000000000, 1000000001, u64::MAX];
    for a in ids {
        for b in ids {
            if a != b {
                assert_ne!(output_name(a), output_name(b));
            }
        }
    }
}

#[test]
fn name_of_a_short_number_has_thirteen_characters() {
    for id in [0u64, 5, 77, 4096, 999999999] {
        assert_eq!(output_name(id).len(), 13);
    }
    assert_eq!(output_name(1000000000).len(), 14);
}
