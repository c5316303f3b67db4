use atool::password_generator::build_pool;
use atool::password_generator::gen_pwd;
use atool::password_generator::gen_pwd_cmd;
use atool::password_generator::push_choice;
use atool::password_generator::GenFlagSet;
use atool::password_generator::GenFlags;

#[test]
pub fn password_generator_test_1() {
    let flag = GenFlags::LowerCase | GenFlags::UpperCase | GenFlags::Digits | GenFlags::Spe;
    assert_eq!(flag.bits(), 0b1111);
}

#[test]
fn flags_are_made_from_their_bits() {
    assert_eq!(GenFlagSet::from_bits(0), Some(GenFlagSet::empty()));
    assert_eq!(GenFlagSet::from_bits(0b0101), Some(GenFlags::LowerCase | GenFlags::Digits));
    assert_eq!(GenFlagSet::from_bits(0b1111).map(|f| f.bits()), Some(15));
    assert_eq!(GenFlagSet::from_bits(0b10000), None);
    assert_eq!(GenFlagSet::from_bits(0b10001), None);
    assert_eq!(GenFlagSet::from_bits(u32::MAX), None);
    assert_eq!(GenFlags::LowerCase.bit(), 1);
    assert_eq!(GenFlags::UpperCase.bit(), 2);
    assert_eq!(GenFlags::Digits.bit(), 4);
    assert_eq!(GenFlags::Spe.bit(), 8);
}

#[test]
fn sets_hold_what_was_put_in() {
    let set = GenFlags::UpperCase | GenFlags::Spe;
    assert!(set.contains(GenFlags::UpperCase));
    assert!(set.contains(GenFlags::Spe));
    assert!(!set.contains(GenFlags::LowerCase));
    assert!(!set.contains(GenFlags::Digits));
    assert_eq!(set.union(GenFlags::Digits | GenFlags::Spe).bits(), 0b1110);
    assert_eq!((set | GenFlags::UpperCase), set);
}

#[test]
fn pools_hold_the_classes_in_order() {
    let text = |flags: GenFlagSet| build_pool(flags).into_iter().collect::<String>();
    assert_eq!(text(GenFlagSet::empty()), "");
    assert_eq!(text(GenFlagSet::from_bits(1).unwrap()), "abcdefghijklmnopqrstuvwxyz");
    assert_eq!(text(GenFlagSet::from_bits(2).unwrap()), "ABCDEFGHIJKLMNOPQRSTUVWXYZ");
    assert_eq!(text(GenFlagSet::from_bits(4).unwrap()), "0123456789");
    assert_eq!(text(GenFlagSet::from_bits(8).unwrap()), "!\"#$%&'()*+,-./:;<=>?@[\\]^_`{|}~");
    assert_eq!(
        text(GenFlagSet::from_bits(15).unwrap()),
        "abcdefghijklmnopqrstuvwxyzABCDEFGHIJKLMNOPQRSTUVWXYZ0123456789!\"#$%&'()*+,-./:;<=>?@[\\]^_`{|}~"
    );
    assert_eq!(text(GenFlags::Digits | GenFlags::LowerCase), "abcdefghijklmnopqrstuvwxyz0123456789");
}

#[test]
fn passwords_have_the_length_asked_for() {
    for len in [0u32, 1, 8, 64, 1000] {
        let password = gen_pwd(GenFlags::LowerCase | GenFlags::Digits, len);
        assert_eq!(password.chars().count(), len as usize);
    }
}

#[test]
fn passwords_are_drawn_from_the_pool() {
    let password = gen_pwd(GenFlagSet::from_bits(4).unwrap(), 200);
    assert!(password.chars().all(|c| c.is_ascii_digit()));
    let password = gen_pwd(GenFlags::UpperCase | GenFlags::Spe, 200);
    assert!(password.chars().all(|c| c.is_ascii_uppercase() || c.is_ascii_punctuation()));
    let pool = build_pool(GenFlagSet::from_bits(15).unwrap());
    assert_eq!(pool.len(), 94);
    let password = gen_pwd_cmd(15, 500);
    assert!(password.chars().all(|c| pool.contains(&c)));
}

#[test]
fn choices_differ() {
    // 64 draws from 94 characters: all equal happens once in 94^63 runs
    let password = gen_pwd_cmd(15, 64);
    let first = password.chars().next().unwrap();
    assert!(password.chars().any(|c| c != first));
}

#[test]
fn an_empty_pool_gives_an_empty_password() {
    assert_eq!(gen_pwd(GenFlagSet::empty(), 12), "");
    assert_eq!(gen_pwd_cmd(0, 12), "");
}

#[test]
fn bits_that_name_no_class_give_an_empty_password() {
    assert_eq!(gen_pwd_cmd(16, 12), "");
    assert_eq!(gen_pwd_cmd(0b10001, 12), "");
    assert_eq!(gen_pwd_cmd(u32::MAX, 3), "");
}

#[test]
fn a_choice_is_appended() {
    let mut password = String::from("ab");
    push_choice(&mut password, Some('c'));
    assert_eq!(password, "abc");
    push_choice(&mut password, None);
    assert_eq!(password, "abc");
    push_choice(&mut password, Some('é'));
    assert_eq!(password, "abcé");
}
