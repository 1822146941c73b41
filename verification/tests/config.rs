use bitcalc::config::{ArgError, ArgFlag, Config};

fn words(list: &[&str]) -> Vec<String> {
    list.iter().map(|w| w.to_string()).collect()
}

fn fields(config: &Config) -> (String, u32, u32, bool) {
    (config.expression.clone(), config.base, config.width, config.unsigned_int)
}

fn read(list: &[&str]) -> Result<(String, u32, u32, bool), ArgError> {
    Config::parse_args(words(list)).map(|c| fields(&c))
}

#[test]
fn the_default_configuration() {
    assert_eq!(fields(&Config::new()), (String::new(), 10, 32, true));
}

#[test]
fn no_flags_give_the_default() {
    assert_eq!(read(&[]), Ok((String::new(), 10, 32, true)));
    assert_eq!(read(&["calc"]), Ok((String::new(), 10, 32, true)));
    // The first word is the program's name, whatever it looks like.
    assert_eq!(read(&["-x"]), Ok((String::new(), 10, 32, true)));
}

#[test]
fn flags_set_their_fields() {
    assert_eq!(
        read(&["calc", "-e", "1+2", "-b", "16", "-w", "8"]),
        Ok(("1+2".to_string(), 16, 8, true))
    );
    assert_eq!(read(&["calc", "-w", "4"]), Ok((String::new(), 10, 4, true)));
    assert_eq!(read(&["calc", "-e", "-b"]), Ok(("-b".to_string(), 10, 32, true)));
}

#[test]
fn a_later_flag_overrides_an_earlier_one() {
    assert_eq!(
        read(&["calc", "-b", "2", "-e", "1", "-b", "16", "-e", "2"]),
        Ok(("2".to_string(), 16, 32, true))
    );
}

#[test]
fn numbers_are_decimal_with_an_optional_plus() {
    assert_eq!(read(&["calc", "-b", "+16"]), Ok((String::new(), 16, 32, true)));
    assert_eq!(read(&["calc", "-b", "007"]), Ok((String::new(), 7, 32, true)));
    assert_eq!(
        read(&["calc", "-w", "4294967295"]),
        Ok((String::new(), 10, 4294967295, true))
    );
    for bad in ["", "+", "-1", "0x10", "1 ", "++1", "4294967296", "ten"] {
        assert_eq!(
            read(&["calc", "-b", bad]),
            Err(ArgError::InvalidArgument(ArgFlag::Base)),
            "{:?}",
            bad
        );
        assert_eq!(
            read(&["calc", "-w", bad]),
            Err(ArgError::InvalidArgument(ArgFlag::Width)),
            "{:?}",
            bad
        );
    }
}

#[test]
fn a_flag_without_its_argument() {
    assert_eq!(read(&["calc", "-e"]), Err(ArgError::MissingArgument(ArgFlag::Expression)));
    assert_eq!(read(&["calc", "-b"]), Err(ArgError::MissingArgument(ArgFlag::Base)));
    assert_eq!(
        read(&["calc", "-e", "1", "-w"]),
        Err(ArgError::MissingArgument(ArgFlag::Width))
    );
}

#[test]
fn a_word_that_is_no_flag() {
    assert_eq!(read(&["calc", "1+2"]), Err(ArgError::UnknownArgument(1)));
    assert_eq!(read(&["calc", "-e", "1", "-u"]), Err(ArgError::UnknownArgument(3)));
    assert_eq!(read(&["calc", "-E", "1"]), Err(ArgError::UnknownArgument(1)));
    assert_eq!(read(&["calc", "-eb", "1"]), Err(ArgError::UnknownArgument(1)));
    assert_eq!(read(&["calc", ""]), Err(ArgError::UnknownArgument(1)));
    // The first error from the left counts.
    assert_eq!(read(&["calc", "-b", "x", "oops"]), Err(ArgError::InvalidArgument(ArgFlag::Base)));
}
