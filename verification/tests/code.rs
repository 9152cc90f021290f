use hack_assembler::code::bin16;
use hack_assembler::code::Code;

#[test]
fn code_test_dest() {
    assert_eq!(Code::dest(""), "000");
    assert_eq!(Code::dest("M"), "001");
    assert_eq!(Code::dest("D"), "010");
    assert_eq!(Code::dest("DM"), "011");
    assert_eq!(Code::dest("MD"), "011");
    assert_eq!(Code::dest("A"), "100");
    assert_eq!(Code::dest("AM"), "101");
    assert_eq!(Code::dest("MA"), "101");
    assert_eq!(Code::dest("AD"), "110");
    assert_eq!(Code::dest("DA"), "110");
    assert_eq!(Code::dest("ADM"), "111");
    assert_eq!(Code::dest("AMD"), "111");
    assert_eq!(Code::dest("DAM"), "111");
    assert_eq!(Code::dest("DMA"), "111");
    assert_eq!(Code::dest("MAD"), "111");
    assert_eq!(Code::dest("MDA"), "111");
}

#[test]
fn code_test_comp() {
    assert_eq!(Code::comp("0"), "0101010");
    assert_eq!(Code::comp("1"), "0111111");
    assert_eq!(Code::comp("-1"), "0111010");
    assert_eq!(Code::comp("D"), "0001100");
    assert_eq!(Code::comp("A"), "0110000");
    assert_eq!(Code::comp("!D"), "0001101");
    assert_eq!(Code::comp("!A"), "0110001");
    assert_eq!(Code::comp("D+1"), "0011111");
    assert_eq!(Code::comp("A+1"), "0110111");
    assert_eq!(Code::comp("D-1"), "0001110");
    assert_eq!(Code::comp("A-1"), "0110010");
    assert_eq!(Code::comp("D+A"), "0000010");
    assert_eq!(Code::comp("A+D"), "0000010");
    assert_eq!(Code::comp("D-A"), "0010011");
    assert_eq!(Code::comp("A-D"), "0000111");
    assert_eq!(Code::comp("D&A"), "0000000");
    assert_eq!(Code::comp("D|A"), "0010101");
    assert_eq!(Code::comp("M"), "1110000");
    assert_eq!(Code::comp("!M"), "1110001");
    assert_eq!(Code::comp("-M"), "1110011");
    assert_eq!(Code::comp("M+1"), "1110111");
    assert_eq!(Code::comp("M-1"), "1110010");
    assert_eq!(Code::comp("D+M"), "1000010");
    assert_eq!(Code::comp("M+D"), "1000010");
    assert_eq!(Code::comp("D-M"), "1010011");
    assert_eq!(Code::comp("M-D"), "1000111");
    assert_eq!(Code::comp("D&M"), "1000000");
    assert_eq!(Code::comp("D|M"), "1010101");
}

#[test]
fn code_test_jump() {
    assert_eq!(Code::jump(""), "000");
    assert_eq!(Code::jump("JGT"), "001");
    assert_eq!(Code::jump("JEQ"), "010");
    assert_eq!(Code::jump("JGE"), "011");
    assert_eq!(Code::jump("JLT"), "100");
    assert_eq!(Code::jump("JNE"), "101");
    assert_eq!(Code::jump("JLE"), "110");
    assert_eq!(Code::jump("JMP"), "111");
}

#[test]
fn test_comp_commutative_pairs() {
    assert_eq!(Code::comp("D+A"), Code::comp("A+D"));
    assert_eq!(Code::comp("D+A"), "0000010");
    assert_eq!(Code::comp("D+M"), Code::comp("M+D"));
    assert_ne!(Code::comp("D-A"), Code::comp("A-D"));
    assert_ne!(Code::comp("D-M"), Code::comp("M-D"));
}

#[test]
fn test_try_encoders_reject_unknown() {
    assert!(Code::try_dest("X").is_none());
    assert!(Code::try_dest("MM").is_none());
    assert!(Code::try_dest("ADMA").is_none());
    assert!(Code::try_comp("D+D").is_none());
    assert!(Code::try_comp("").is_none());
    assert!(Code::try_jump("JJJ").is_none());
    assert!(Code::try_jump("jmp").is_none());
}

#[test]
fn test_bin16_values() {
    assert_eq!(bin16(0), "0000000000000000");
    assert_eq!(bin16(1), "0000000000000001");
    assert_eq!(bin16(16), "0000000000010000");
    assert_eq!(bin16(123), "0000000001111011");
    assert_eq!(bin16(16384), "0100000000000000");
    assert_eq!(bin16(24576), "0110000000000000");
    assert_eq!(bin16(65535), "1111111111111111");
}
