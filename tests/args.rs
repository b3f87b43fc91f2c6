use cvers::{parse_arguments, permissive_parser_config, ParserConfig};

#[test]
fn test_mandatory_parameters() {
    let args: Vec<String> = vec![
        String::from("verb"),
        String::from("first value"),
        String::from("second value"),
    ];

    let parsed_args: (ParserConfig, Vec<String>) = parse_arguments(args.clone());

    assert_eq!(parsed_args.1, args);
}

#[test]
fn test_default_config() {
    let args: Vec<String> = Vec::new();

    let parsed_args: (ParserConfig, Vec<String>) = parse_arguments(args);

    assert_eq!(parsed_args.0, permissive_parser_config());
}

#[test]
fn test_enable_pre_release_touchs_digit_option() {
    let args: Vec<String> = vec![
        String::from("--pre-release-touchs-digit"),
        String::from("verb"),
        String::from("first value"),
        String::from("second value"),
    ];
    let mandatory_args: Vec<String> = vec![args[1].clone(), args[2].clone(), args[3].clone()];

    let mut expected: ParserConfig = permissive_parser_config();
    expected.pre_release_touchs_digit = Some(true);

    let parsed_args: (ParserConfig, Vec<String>) = parse_arguments(args);

    assert_eq!(parsed_args.0, expected);
    assert_eq!(parsed_args.1, mandatory_args);
}

#[test]
fn test_set_epoch_character() {
    let args: Vec<String> = vec![
        String::from("--epoch"),
        String::from("|"),
        String::from("verb"),
        String::from("first value"),
        String::from("second value"),
    ];
    let mandatory_args: Vec<String> = vec![args[2].clone(), args[3].clone(), args[4].clone()];

    let mut expected: ParserConfig = permissive_parser_config();
    expected.epoch_delimiter = Some('|');

    let parsed_args: (ParserConfig, Vec<String>) = parse_arguments(args);

    assert_eq!(parsed_args.0, expected);
    assert_eq!(parsed_args.1, mandatory_args);
}

#[test]
fn empty_epoch_argument_clears_the_delimiter() {
    let args: Vec<String> = vec![String::from("--epoch"), String::new(), String::from("verb")];

    let parsed_args = parse_arguments(args);

    assert_eq!(parsed_args.0.epoch_delimiter, None);
    assert_eq!(parsed_args.1, vec![String::from("verb")]);
}
