use tonic_runtime::integer::Integer;

fn whole(n: i128) -> Integer {
    Integer::from_i128(n)
}

fn text(n: Integer) -> String {
    n.to_decimal()
}

#[test]
fn numbers_come_back_as_they_went_in() {
    for n in [0i64, 1, -1, 127, 128, -128, -129, 255, 256, i64::MAX, i64::MIN] {
        assert_eq!(Integer::from_i64(n).to_i64(), Some(n));
        assert_eq!(Integer::from_i64(n).to_i128(), Some(n as i128));
        assert_eq!(text(Integer::from_i64(n)), n.to_string());
    }
    assert_eq!(whole(i128::MIN).to_i128(), Some(i128::MIN));
    assert_eq!(whole(i64::MAX as i128 + 1).to_i64(), None);
    assert_eq!(whole(i128::MAX).plus(&whole(1)).to_i128(), None);
}

#[test]
fn signs_and_order() {
    assert!(whole(0).is_zero());
    assert!(!whole(256).is_zero());
    assert!(whole(-1).is_negative());
    assert!(!whole(0).is_negative());
    assert!(whole(300).equals(&whole(300)));
    assert!(!whole(300).equals(&whole(44)));
    assert!(whole(-3).less(&whole(2)));
    assert!(!whole(2).less(&whole(-3)));
    assert!(!whole(2).less(&whole(2)));
    assert_eq!(text(whole(12).copy()), "12");
    assert_eq!(text(whole(12).negated()), "-12");
    assert_eq!(text(whole(-12).absolute()), "12");
    assert_eq!(text(whole(12).absolute()), "12");
}

#[test]
fn arithmetic_is_exact() {
    let big = whole(1).shift_left(100);
    assert_eq!(text(big.copy()), "1267650600228229401496703205376");
    assert_eq!(text(big.plus(&whole(1))), "1267650600228229401496703205377");
    assert_eq!(text(big.minus(&whole(1))), "1267650600228229401496703205375");
    assert_eq!(text(big.times(&big).shift_right(190)), "1024");
    assert_eq!(text(whole(7).times(&whole(-6))), "-42");
    assert_eq!(text(whole(3).power(5)), "243");
    assert_eq!(text(whole(-2).power(3)), "-8");
    assert_eq!(text(whole(5).power(0)), "1");
}

#[test]
fn division_rounds_toward_zero() {
    for (x, y, q, r) in [(7, 2, 3, 1), (-7, 2, -3, -1), (7, -2, -3, 1), (-7, -2, 3, -1)] {
        assert_eq!(whole(x).quotient(&whole(y)).to_i64(), Some(q));
        assert_eq!(whole(x).remainder(&whole(y)).to_i64(), Some(r));
    }
}

#[test]
fn bits_are_those_of_twos_complement() {
    assert_eq!(whole(12).bit_and(&whole(10)).to_i64(), Some(8));
    assert_eq!(whole(12).bit_or(&whole(10)).to_i64(), Some(14));
    assert_eq!(whole(12).bit_xor(&whole(10)).to_i64(), Some(6));
    assert_eq!(whole(-1).bit_and(&whole(255)).to_i64(), Some(255));
    assert_eq!(whole(-8).bit_or(&whole(3)).to_i64(), Some(-5));
    assert_eq!(whole(-8).bit_xor(&whole(-1)).to_i64(), Some(7));
    assert_eq!(whole(5).complement().to_i64(), Some(-6));
    assert_eq!(whole(-5).shift_right(1).to_i64(), Some(-3));
    assert_eq!(whole(-5).shift_left(3).to_i64(), Some(-40));
    assert_eq!(whole(0).bits(), 0);
    assert_eq!(whole(-8).bits(), 4);
    assert_eq!(whole(255).bits(), 8);
}

#[test]
fn numerals_are_read_in_their_base() {
    assert_eq!(Integer::parse("ff", 16).unwrap().to_i64(), Some(255));
    assert_eq!(Integer::parse("-101", 2).unwrap().to_i64(), Some(-5));
    assert_eq!(Integer::parse("+7", 8).unwrap().to_i64(), Some(7));
    assert_eq!(Integer::parse("1_000", 10).unwrap().to_i64(), Some(1000));
    assert_eq!(Integer::parse("zZ", 36).unwrap().to_i64(), Some(35 * 36 + 35));
    assert!(Integer::parse("8", 8).is_none());
    assert!(Integer::parse("", 10).is_none());
    assert!(Integer::parse("_1", 10).is_none());
    assert!(Integer::parse("++1", 10).is_none());
    assert!(Integer::parse("1 ", 10).is_none());
}

#[test]
fn decimal_notation_reads_back() {
    for n in [0i128, 7, -7, 10, -1000, i128::MAX, i128::MIN] {
        let written = whole(n).to_decimal();
        assert!(Integer::parse(&written, 10).unwrap().equals(&whole(n)));
    }
}
