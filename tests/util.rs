use blackjack::util::format_vec_string;

#[test]
fn values_are_joined_with_commas() {
    assert_eq!(format_vec_string(&[1, 2, 3, 4]), "1, 2, 3, 4");
}

#[test]
fn no_values_give_an_empty_string() {
    assert_eq!(format_vec_string(&[]), "");
}

#[test]
fn multi_digit_values_are_written_in_full() {
    assert_eq!(format_vec_string(&[0]), "0");
    assert_eq!(format_vec_string(&[1234567, 10, 4294967295]), "1234567, 10, 4294967295");
}
