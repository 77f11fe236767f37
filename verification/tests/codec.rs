use btc_node::stops::Stops;
use btc_node::text::{chars_of, parse_bool_chars, parse_i32_chars, parse_unsigned_chars, split_chars, string_from_chars};
use btc_node::var_len_int::VarLenInt;

#[test]
fn var_len_ints_take_the_shortest_encoding() {
    assert_eq!(VarLenInt::new(0).to_bytes(), vec![0]);
    assert_eq!(VarLenInt::new(252).to_bytes(), vec![252]);
    assert_eq!(VarLenInt::new(253).to_bytes(), vec![0xfd, 253, 0]);
    assert_eq!(VarLenInt::new(0xffff).to_bytes(), vec![0xfd, 0xff, 0xff]);
    assert_eq!(VarLenInt::new(0x10000).to_bytes(), vec![0xfe, 0, 0, 1, 0]);
    assert_eq!(VarLenInt::new(0x1234_5678).to_bytes(), vec![0xfe, 0x78, 0x56, 0x34, 0x12]);
    assert_eq!(VarLenInt::new(253).amount_of_bytes(), 3);
}

#[test]
fn var_len_ints_read_back_what_was_written() {
    for value in [0usize, 1, 252, 253, 1000, 0xffff, 0x10000, 0xfffff, 0xffff_ffff] {
        let v = VarLenInt::new(value);
        let mut bytes = v.to_bytes();
        bytes.extend([9, 9, 9]);
        let back = VarLenInt::from_bytes(&bytes).unwrap();
        assert_eq!(back, v);
        assert_eq!(back.to_usize(), value);
        assert_eq!(back.to_u64(), value as u64);
    }
}

#[test]
fn var_len_ints_of_nine_bytes_are_read() {
    let bytes = [0xff, 1, 2, 3, 4, 5, 6, 7, 8];
    let v = VarLenInt::from_bytes(&bytes).unwrap();
    assert_eq!(v.to_u64(), 0x0807_0605_0403_0201);
    assert_eq!(v.amount_of_bytes(), 9);
}

#[test]
fn short_var_len_ints_are_refused() {
    assert_eq!(VarLenInt::from_bytes(&[]), None);
    assert_eq!(VarLenInt::from_bytes(&[0xfd, 1]), None);
    assert_eq!(VarLenInt::from_bytes(&[0xfe, 1, 2, 3]), None);
    assert_eq!(VarLenInt::from_bytes(&[0xff, 1, 2, 3, 4, 5, 6, 7]), None);
}

#[test]
fn text_is_split_and_parsed() {
    let chars = chars_of("8080:true:-12");
    let parts = split_chars(&chars, ':');
    assert_eq!(parts.len(), 3);
    assert_eq!(string_from_chars(&parts[0]), "8080".to_string());
    assert_eq!(parse_unsigned_chars(&parts[0], 65535), Some(8080));
    assert_eq!(parse_unsigned_chars(&chars_of("65536"), 65535), None);
    assert_eq!(parse_unsigned_chars(&chars_of(""), 65535), None);
    assert_eq!(parse_unsigned_chars(&chars_of("+7"), 65535), Some(7));
    assert_eq!(parse_unsigned_chars(&chars_of("7a"), 65535), None);
    assert_eq!(parse_bool_chars(&parts[1]), Some(true));
    assert_eq!(parse_bool_chars(&chars_of("True")), None);
    assert_eq!(parse_i32_chars(&parts[2]), Some(-12));
    assert_eq!(parse_i32_chars(&chars_of("2147483647")), Some(i32::MAX));
    assert_eq!(parse_i32_chars(&chars_of("-2147483648")), Some(i32::MIN));
    assert_eq!(parse_i32_chars(&chars_of("2147483648")), None);
    assert_eq!(split_chars(&chars_of("a::b"), ':').len(), 3);
}

#[test]
fn stopping_workers_log_how_they_ended() {
    assert_eq!(
        Stops::GracefullStop.log_message("Broadcasting".to_string()),
        "Broadcasting: finished gracefully".to_string()
    );
    assert_eq!(
        Stops::UngracefullStop.log_message("Listener".to_string()),
        "Listener: finished ungracefully".to_string()
    );
    assert_eq!(Stops::Continue.log_message("x".to_string()), String::new());
}
