use exspork::parser::{
    is_argument_delimiter, is_comma, parse_arg_with_comma, parse_args, parse_one_arg,
    parse_return_type, to_type, Argument, ParseError, Type,
};

fn arg(name: &str, taipu: Type) -> Argument {
    Argument { name: name.to_string(), taipu }
}

#[test]
fn keywords_name_their_kinds() {
    assert_eq!(to_type("boolean"), Type::Boolean);
    assert_eq!(to_type("number"), Type::Number);
    assert_eq!(to_type("string"), Type::String);
    assert_eq!(to_type("array"), Type::Array);
    assert_eq!(to_type("tuple"), Type::Tuple);
    assert_eq!(to_type("enum"), Type::Enum);
    assert_eq!(to_type("any"), Type::Any);
    assert_eq!(to_type("void"), Type::Void);
    assert_eq!(to_type("null"), Type::Null);
    assert_eq!(to_type("undefined"), Type::Undefined);
    assert_eq!(to_type("never"), Type::Never);
    assert_eq!(to_type("object"), Type::Object);
}

#[test]
fn other_tokens_name_custom_types() {
    assert_eq!(to_type("Shape"), Type::Custom("Shape".to_string()));
    assert_eq!(to_type("Promise<void>"), Type::Custom("Promise<void>".to_string()));
    assert_eq!(to_type("numbers"), Type::Custom("numbers".to_string()));
    assert_eq!(to_type("numbe"), Type::Custom("numbe".to_string()));
    assert_eq!(to_type("voids"), Type::Custom("voids".to_string()));
}

#[test]
fn keywords_are_matched_letter_for_letter() {
    assert_eq!(to_type("Boolean"), Type::Custom("Boolean".to_string()));
    assert_eq!(to_type("NUMBER"), Type::Custom("NUMBER".to_string()));
    assert_eq!(to_type(" string"), Type::Custom(" string".to_string()));
    assert_eq!(to_type("void "), Type::Custom("void ".to_string()));
}

#[test]
fn empty_token_names_an_empty_custom_type() {
    assert_eq!(to_type(""), Type::Custom(String::new()));
}

#[test]
fn delimiters_are_comma_and_closing_parenthesis() {
    assert!(is_argument_delimiter(','));
    assert!(is_argument_delimiter(')'));
    assert!(!is_argument_delimiter('('));
    assert!(!is_argument_delimiter(':'));
    assert!(!is_argument_delimiter(';'));
    assert!(!is_argument_delimiter(' '));
    assert!(is_comma(','));
    assert!(!is_comma(')'));
    assert!(!is_comma('.'));
}

#[test]
fn empty_list_reads_only_its_parentheses() {
    assert_eq!(parse_args("()"), Ok(("", Vec::new())));
    assert_eq!(parse_args("(): void;"), Ok((": void;", Vec::new())));
    assert_eq!(parse_args("() "), Ok((" ", Vec::new())));
}

#[test]
fn list_of_one_argument() {
    assert_eq!(parse_args("(a: string)"), Ok(("", vec![arg("a", Type::String)])));
}

#[test]
fn list_of_two_arguments_keeps_their_order() {
    assert_eq!(
        parse_args("(a: string, b: number)"),
        Ok(("", vec![arg("a", Type::String), arg("b", Type::Number)]))
    );
    assert_eq!(
        parse_args("(b: number, a: string): void;"),
        Ok((": void;", vec![arg("b", Type::Number), arg("a", Type::String)]))
    );
}

#[test]
fn list_tolerates_whitespace_round_each_argument() {
    assert_eq!(
        parse_args("(  a :string ,\n\tb:  Map  ,c:any)x"),
        Ok(("x", vec![
            arg("a", Type::String),
            arg("b", Type::Custom("Map".to_string())),
            arg("c", Type::Any),
        ]))
    );
}

#[test]
fn list_must_begin_with_its_parenthesis() {
    assert_eq!(parse_args(""), Err(ParseError::MalformedDeclaration));
    assert_eq!(parse_args("a: string)"), Err(ParseError::MalformedDeclaration));
    assert_eq!(parse_args(" ()"), Err(ParseError::MalformedDeclaration));
    assert_eq!(parse_args(")"), Err(ParseError::MalformedDeclaration));
}

#[test]
fn list_fails_as_a_whole() {
    assert_eq!(parse_args("(a: string, b: )"), Err(ParseError::MalformedDeclaration));
    assert_eq!(parse_args("(a: string, : number)"), Err(ParseError::MalformedDeclaration));
    assert_eq!(parse_args("(a: string, b)"), Err(ParseError::UnterminatedArgumentList));
    assert_eq!(parse_args("(a: string, )"), Err(ParseError::UnterminatedArgumentList));
    assert_eq!(parse_args("(a: string"), Err(ParseError::UnterminatedArgumentList));
    assert_eq!(parse_args("("), Err(ParseError::UnterminatedArgumentList));
    assert_eq!(parse_args("( )"), Err(ParseError::UnterminatedArgumentList));
}

#[test]
fn argument_leaves_its_delimiter() {
    assert_eq!(parse_one_arg("a: string)"), Ok((")", arg("a", Type::String))));
    assert_eq!(parse_one_arg("a: string, b: number)"), Ok((", b: number)", arg("a", Type::String))));
    assert_eq!(
        parse_one_arg(" \n person :\tPerson \n)rest"),
        Ok((")rest", arg("person", Type::Custom("Person".to_string()))))
    );
}

#[test]
fn argument_takes_its_name_up_to_the_colon() {
    assert_eq!(parse_one_arg("a, b: string)"), Ok((")", arg("a, b", Type::String))));
    assert_eq!(parse_one_arg("first name: string,"), Ok((",", arg("first name", Type::String))));
}

#[test]
fn argument_needs_name_colon_type_and_delimiter() {
    assert_eq!(parse_one_arg(""), Err(ParseError::UnterminatedArgumentList));
    assert_eq!(parse_one_arg("a"), Err(ParseError::UnterminatedArgumentList));
    assert_eq!(parse_one_arg("a)"), Err(ParseError::UnterminatedArgumentList));
    assert_eq!(parse_one_arg("a: string"), Err(ParseError::UnterminatedArgumentList));
    assert_eq!(parse_one_arg(": string)"), Err(ParseError::MalformedDeclaration));
    assert_eq!(parse_one_arg("  : string)"), Err(ParseError::MalformedDeclaration));
    assert_eq!(parse_one_arg("a:)"), Err(ParseError::MalformedDeclaration));
    assert_eq!(parse_one_arg("a: \t,"), Err(ParseError::MalformedDeclaration));
    assert_eq!(parse_one_arg(" : "), Err(ParseError::MalformedDeclaration));
}

#[test]
fn argument_with_comma_reads_the_comma() {
    assert_eq!(
        parse_arg_with_comma("a: string, b: number)"),
        Ok((" b: number)", arg("a", Type::String)))
    );
    assert_eq!(parse_arg_with_comma("a: string,"), Ok(("", arg("a", Type::String))));
}

#[test]
fn argument_with_comma_needs_the_comma() {
    assert_eq!(parse_arg_with_comma("a: string)"), Err(ParseError::MalformedDeclaration));
    assert_eq!(parse_arg_with_comma("a: string"), Err(ParseError::UnterminatedArgumentList));
    assert_eq!(parse_arg_with_comma("a: ,"), Err(ParseError::MalformedDeclaration));
}

#[test]
fn return_type_leaves_its_semicolon() {
    assert_eq!(parse_return_type(" void;"), Ok((";", Type::Void)));
    assert_eq!(parse_return_type("number; next"), Ok(("; next", Type::Number)));
    assert_eq!(
        parse_return_type("\n Array<T> \n;;"),
        Ok((";;", Type::Custom("Array<T>".to_string())))
    );
}

#[test]
fn return_type_needs_a_token_and_a_semicolon() {
    assert_eq!(parse_return_type(""), Err(ParseError::UnterminatedSignature));
    assert_eq!(parse_return_type(" void"), Err(ParseError::UnterminatedSignature));
    assert_eq!(parse_return_type(";"), Err(ParseError::MalformedDeclaration));
    assert_eq!(parse_return_type("  ;"), Err(ParseError::MalformedDeclaration));
}
