use exspork::parser::{parse_definition_file, parse_function, Argument, Function, ParseError, Type};

#[test]
fn parse_void_function() {
    let void_function_declaration = "
        export function greet(): void;

    ";

    let (_, parsed_function) = parse_function(void_function_declaration).unwrap();

    assert_eq!(&parsed_function.name, "greet");
    assert_eq!(parsed_function.args, Vec::new());
    assert_eq!(parsed_function.return_type, Type::Void);
}

#[test]
fn parse_void_function_with_arg() {
    let void_function_declaration = "
        export function greet(person: string): void;

    ";

    let (_, parsed_function) = parse_function(void_function_declaration).unwrap();

    assert_eq!(&parsed_function.name, "greet");
    assert_eq!(parsed_function.args, vec![Argument{
        name: "person".to_string(),
        taipu: Type::String,
    }]);
    assert_eq!(parsed_function.return_type, Type::Void);
}

#[test]
fn parse_void_function_with_multiple_args() {
    let void_function_declaration = "
        export function greet(person: string, age: number): void;

    ";

    let (_, parsed_function) = parse_function(void_function_declaration).unwrap();

    assert_eq!(&parsed_function.name, "greet");
    assert_eq!(parsed_function.args, vec![Argument{
        name: "person".to_string(),
        taipu: Type::String,
    }, Argument{
        name: "age".to_string(),
        taipu: Type::Number,
    }]);
    assert_eq!(parsed_function.return_type, Type::Void);
}

#[test]
fn parse_returning_function_with_multiple_args() {
    let void_function_declaration = "
        export function exponent(x: number, y: number): number;

    ";

    let (_, parsed_function) = parse_function(void_function_declaration).unwrap();

    assert_eq!(&parsed_function.name, "exponent");
    assert_eq!(parsed_function.args, vec![Argument{
        name: "x".to_string(),
        taipu: Type::Number,
    }, Argument{
        name: "y".to_string(),
        taipu: Type::Number,
    }]);
    assert_eq!(parsed_function.return_type, Type::Number);
}

#[test]
fn parse_multiple_functions() {
    let multiple_functions = "
        export function greet(person: string): void;

        export function exponent(x: number, y: number): number;
        export function concat(first: array, second: array): array;

        export function isEqual(x: number, y: number): boolean;

    ";

    let (_, parsed_functions) = parse_definition_file(multiple_functions).unwrap();

    let first_parsed_function = &parsed_functions[0];
    assert_eq!(&first_parsed_function.name, "greet");
    assert_eq!(first_parsed_function.args, vec![Argument{
        name: "person".to_string(),
        taipu: Type::String,
    }]);
    assert_eq!(first_parsed_function.return_type, Type::Void);

    let second_parsed_function = &parsed_functions[1];
    assert_eq!(&second_parsed_function.name, "exponent");
    assert_eq!(second_parsed_function.args, vec![Argument{
        name: "x".to_string(),
        taipu: Type::Number,
    }, Argument{
        name: "y".to_string(),
        taipu: Type::Number,
    }]);
    assert_eq!(second_parsed_function.return_type, Type::Number);

    assert_eq!(parsed_functions.len(), 4);

}

fn argument(name: &str, taipu: Type) -> Argument {
    Argument { name: name.to_string(), taipu }
}

#[test]
fn function_without_arguments_is_read_whole() {
    let (rest, function) = parse_function("export function greet(): void;").unwrap();
    assert_eq!(rest, "");
    assert_eq!(
        function,
        Function { name: "greet".to_string(), args: Vec::new(), return_type: Type::Void }
    );
}

#[test]
fn function_with_two_numbers_is_read_whole() {
    let (rest, function) =
        parse_function("export function exponent(x: number, y: number): number;").unwrap();
    assert_eq!(rest, "");
    assert_eq!(
        function,
        Function {
            name: "exponent".to_string(),
            args: vec![argument("x", Type::Number), argument("y", Type::Number)],
            return_type: Type::Number,
        }
    );
}

#[test]
fn function_leaves_what_follows_its_semicolon() {
    let (rest, function) = parse_function("export function f(): void; \nexport").unwrap();
    assert_eq!(rest, " \nexport");
    assert_eq!(function.name, "f");
}

#[test]
fn whitespace_between_tokens_does_not_count() {
    let text = "\r\n\texport\n\tfunction \t area (\n width : number ,\n height : Shape \n) \n:\n number \n; tail";
    let (rest, function) = parse_function(text).unwrap();
    assert_eq!(rest, " tail");
    assert_eq!(
        function,
        Function {
            name: "area".to_string(),
            args: vec![
                argument("width", Type::Number),
                argument("height", Type::Custom("Shape".to_string())),
            ],
            return_type: Type::Number,
        }
    );
}

#[test]
fn keywords_need_whitespace_behind_them() {
    assert_eq!(
        parse_function("exportfunction f(): void;"),
        Err(ParseError::MalformedDeclaration)
    );
    assert_eq!(
        parse_function("export function(): void;"),
        Err(ParseError::MalformedDeclaration)
    );
    assert_eq!(parse_function("export"), Err(ParseError::MalformedDeclaration));
    assert_eq!(parse_function("export function"), Err(ParseError::MalformedDeclaration));
}

#[test]
fn missing_keyword_is_malformed() {
    assert_eq!(parse_function(""), Err(ParseError::MalformedDeclaration));
    assert_eq!(parse_function("   \n"), Err(ParseError::MalformedDeclaration));
    assert_eq!(parse_function("function f(): void;"), Err(ParseError::MalformedDeclaration));
    assert_eq!(parse_function("export const f(): void;"), Err(ParseError::MalformedDeclaration));
    assert_eq!(parse_function("Export function f(): void;"), Err(ParseError::MalformedDeclaration));
}

#[test]
fn missing_argument_type_is_malformed() {
    assert_eq!(
        parse_function("export function greet(person: ): void;"),
        Err(ParseError::MalformedDeclaration)
    );
    assert_eq!(
        parse_function("export function greet(person: string, age:): void;"),
        Err(ParseError::MalformedDeclaration)
    );
}

#[test]
fn missing_name_is_malformed() {
    assert_eq!(
        parse_function("export function  (a: string): void;"),
        Err(ParseError::MalformedDeclaration)
    );
    assert_eq!(
        parse_function("export function f( : string): void;"),
        Err(ParseError::MalformedDeclaration)
    );
}

#[test]
fn missing_return_type_is_malformed() {
    assert_eq!(
        parse_function("export function isEqual(x: number, y: number): ;"),
        Err(ParseError::MalformedDeclaration)
    );
    assert_eq!(
        parse_function("export function f() void;"),
        Err(ParseError::MalformedDeclaration)
    );
    assert_eq!(parse_function("export function f()"), Err(ParseError::MalformedDeclaration));
}

#[test]
fn text_that_ends_in_the_signature_is_unterminated() {
    assert_eq!(parse_function("export function greet"), Err(ParseError::UnterminatedSignature));
    assert_eq!(
        parse_function("export function greet(): void"),
        Err(ParseError::UnterminatedSignature)
    );
    assert_eq!(parse_function("export function greet():"), Err(ParseError::UnterminatedSignature));
}

#[test]
fn text_that_ends_in_the_arguments_is_unterminated() {
    assert_eq!(
        parse_function("export function greet(person"),
        Err(ParseError::UnterminatedArgumentList)
    );
    assert_eq!(
        parse_function("export function greet(person: string"),
        Err(ParseError::UnterminatedArgumentList)
    );
    assert_eq!(
        parse_function("export function greet(person: string, "),
        Err(ParseError::UnterminatedArgumentList)
    );
    assert_eq!(parse_function("export function greet("), Err(ParseError::UnterminatedArgumentList));
}

#[test]
fn same_text_reads_the_same_twice() {
    let text = "export function greet(person: string): void; rest";
    let first = parse_function(text);
    let second = parse_function(text);
    assert_eq!(first, second);
    assert_eq!(parse_function("export function ("), parse_function("export function ("));
}

#[test]
fn file_reads_each_declaration_as_it_reads_alone() {
    let declarations = [
        "export function ping(): void;",
        "export function exponent(x: number, y: number): number;",
        "export function concat(first: array, second: array): array;",
        "export function isEqual(x: number, y: number): boolean;",
    ];
    let text = format!(
        "\n  {}\n\n  {}\n  {}\n\n  {}\n\n  ",
        declarations[0], declarations[1], declarations[2], declarations[3]
    );
    let (rest, functions) = parse_definition_file(&text).unwrap();
    assert_eq!(rest, "\n\n  ");
    assert_eq!(functions.len(), 4);
    for i in 0..4 {
        let (_, alone) = parse_function(declarations[i]).unwrap();
        assert_eq!(functions[i], alone);
    }
    assert_eq!(functions[0].args, Vec::new());
    assert_eq!(functions[0].return_type, Type::Void);
    assert_eq!(functions[2].name, "concat");
    assert_eq!(
        functions[2].args,
        vec![argument("first", Type::Array), argument("second", Type::Array)]
    );
    assert_eq!(functions[2].return_type, Type::Array);
    assert_eq!(functions[3].name, "isEqual");
    assert_eq!(functions[3].return_type, Type::Boolean);
}

#[test]
fn file_without_declarations_gives_none() {
    assert_eq!(parse_definition_file(""), Ok(("", Vec::new())));
    assert_eq!(parse_definition_file(" \n\t "), Ok((" \n\t ", Vec::new())));
    assert_eq!(parse_definition_file("interface A {}"), Ok(("interface A {}", Vec::new())));
}

#[test]
fn file_stops_at_the_first_text_that_is_no_declaration() {
    let text = "export function a(): void;\nexport function greet(person: ): void;\nexport function b(): void;";
    let (rest, functions) = parse_definition_file(text).unwrap();
    assert_eq!(functions.len(), 1);
    assert_eq!(functions[0].name, "a");
    assert_eq!(rest, "\nexport function greet(person: ): void;\nexport function b(): void;");
}

#[test]
fn file_keeps_functions_of_one_name_apart() {
    let text = "export function f(): void; export function f(a: string): number;";
    let (rest, functions) = parse_definition_file(text).unwrap();
    assert_eq!(rest, "");
    assert_eq!(functions.len(), 2);
    assert_eq!(functions[0].name, "f");
    assert_eq!(functions[1].name, "f");
    assert_eq!(functions[0].args.len(), 0);
    assert_eq!(functions[1].args.len(), 1);
}

#[test]
fn what_a_file_leaves_gives_nothing_more() {
    let text = "export function a(): void;\n export function b(x: T): U; junk export function c(): void;";
    let (rest, functions) = parse_definition_file(text).unwrap();
    assert_eq!(functions.len(), 2);
    assert_eq!(rest, " junk export function c(): void;");
    assert_eq!(parse_definition_file(rest), Ok((rest, Vec::new())));
}

#[test]
fn text_of_other_alphabets_is_read_by_character() {
    let (rest, function) = parse_function("export function grüße(wer: Straße): 数;→").unwrap();
    assert_eq!(rest, "→");
    assert_eq!(function.name, "grüße");
    assert_eq!(function.args, vec![argument("wer", Type::Custom("Straße".to_string()))]);
    assert_eq!(function.return_type, Type::Custom("数".to_string()));
}

#[test]
fn long_text_without_declaration_ends() {
    let text = "export function ".repeat(2000);
    assert_eq!(parse_function(&text), Err(ParseError::UnterminatedSignature));
    let (rest, functions) = parse_definition_file(&text).unwrap();
    assert_eq!(functions.len(), 0);
    assert_eq!(rest.len(), text.len());
}

#[test]
fn many_declarations_are_all_read() {
    let text = "export function f(a: number, b: string): void;\n".repeat(300);
    let (rest, functions) = parse_definition_file(&text).unwrap();
    assert_eq!(rest, "\n");
    assert_eq!(functions.len(), 300);
    assert_eq!(functions[299].args[1], argument("b", Type::String));
}

#[test]
fn declarations_on_lines_of_their_own_read_back() {
    let text = "export function ping(): void;\nexport function area(s: Shape, scale: number): number;\nexport function name(): string;";
    let (rest, functions) = parse_definition_file(text).unwrap();
    assert_eq!(rest, "");
    assert_eq!(
        functions,
        vec![
            Function { name: "ping".to_string(), args: Vec::new(), return_type: Type::Void },
            Function {
                name: "area".to_string(),
                args: vec![
                    argument("s", Type::Custom("Shape".to_string())),
                    argument("scale", Type::Number),
                ],
                return_type: Type::Number,
            },
            Function { name: "name".to_string(), args: Vec::new(), return_type: Type::String },
        ]
    );
}
