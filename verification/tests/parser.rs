use boop_server::message::{parse_message, MessageType, ParserError};

#[test]
fn test_parser_correct() {
    //two values
    let teststring = String::from("CONNECT foo bar\n");
    let test_res = parse_message(&teststring);
    assert!(test_res.is_ok());
    assert_eq!(test_res.unwrap(), MessageType::CONNECT(String::from("foo"), String::from("bar")));

    //one value
    let teststring = String::from("BOOP foo\n");
    let test_res = parse_message(&teststring);
    assert!(test_res.is_ok());
    assert_eq!(test_res.unwrap(), MessageType::BOOP(String::from("foo")));

    //no values
    let teststring = String::from("PING\n");
    let test_res = parse_message(&teststring);
    assert!(test_res.is_ok());
    assert_eq!(test_res.unwrap(), MessageType::PING);

    //change case
    let teststring = String::from("coNnECt foo bar\n");
    let test_res = parse_message(&teststring);
    assert!(test_res.is_ok());
    assert_eq!(test_res.unwrap(), MessageType::CONNECT(String::from("foo"), String::from("bar")));

    //no newline char
    let teststring = String::from("coNnECt foo bar");
    let test_res = parse_message(&teststring);
    assert!(test_res.is_ok());
    assert_eq!(test_res.unwrap(), MessageType::CONNECT(String::from("foo"), String::from("bar")));
}

#[test]
fn test_parser_incorrect() {
    //invalid command
    let teststring = String::from("DOESNOTEXIST foo bar\n");
    let test_res = parse_message(&teststring);
    assert!(test_res.is_err());
    assert_eq!(test_res.unwrap_err(), ParserError::UnknownMessageType);

    //missing arguments / 1
    let teststring = String::from("BOOP\n");
    let test_res = parse_message(&teststring);
    assert!(test_res.is_err());
    assert_eq!(test_res.unwrap_err(), ParserError::UnknownArguments);

    //missing arguments / 2
    let teststring = String::from("CONNECT foo\n");
    let test_res = parse_message(&teststring);
    assert!(test_res.is_err());
    assert_eq!(test_res.unwrap_err(), ParserError::UnknownArguments);

    //too many arguments / 1
    let teststring = String::from("BOOP foo bar\n");
    let test_res = parse_message(&teststring);
    assert!(test_res.is_err());
    assert_eq!(test_res.unwrap_err(), ParserError::UnknownArguments);

    //too many arguments / 1.2
    let teststring = String::from("BOOP foo bar bar foo\n");
    let test_res = parse_message(&teststring);
    assert!(test_res.is_err());
    assert_eq!(test_res.unwrap_err(), ParserError::UnknownArguments);

    //missing arguments / 2
    let teststring = String::from("CONNECT foo bar bar\n");
    let test_res = parse_message(&teststring);
    assert!(test_res.is_err());
    assert_eq!(test_res.unwrap_err(), ParserError::UnknownArguments);

    //missing arguments / 2.2
    let teststring = String::from("CONNECT foo bar bar foo\n");
    let test_res = parse_message(&teststring);
    assert!(test_res.is_err());
    assert_eq!(test_res.unwrap_err(), ParserError::UnknownArguments);

    //empty arguments / 1
    let teststring = String::from("BOOP  \n");
    let test_res = parse_message(&teststring);
    assert!(test_res.is_err());
    assert_eq!(test_res.unwrap_err(), ParserError::UnknownArguments);

    //empty arguments / 2
    let teststring = String::from("CONNECT   bar\n");
    let test_res = parse_message(&teststring);
    assert!(test_res.is_err());
    assert_eq!(test_res.unwrap_err(), ParserError::UnknownArguments);
}
