//! The records that a declaration file is read into, and the parsers that
//! read them.

use crate::grammar::{
    argument, argument_list, argument_with_comma, arguments, declarations, function, is_delimiter,
    keyword, resolve, return_type, signature,
};
use crate::text::{
    characters, find, is_space, is_whitespace, skip_whitespace, spells, trim_range, trim_start,
};
use vstd::prelude::*;
use vstd::string::{StrSliceExecFns, StringExecFns};

verus! {

/// The type named in a declaration: one of the built-in kinds, or any other
/// name, kept as it was written.
#[derive(Debug, PartialEq, Eq)]
pub enum Type {
    Boolean,
    Number,
    String,
    Array,
    Tuple,
    Enum,
    Any,
    Void,
    Null,
    Undefined,
    Never,
    Object,
    Custom(String),
}

/// A `Type` as a mathematical value.
pub enum TypeView {
    Boolean,
    Number,
    String,
    Array,
    Tuple,
    Enum,
    Any,
    Void,
    Null,
    Undefined,
    Never,
    Object,
    Custom(Seq<char>),
}

impl View for Type {
    type V = TypeView;

    open spec fn view(&self) -> TypeView {
        match self {
            Type::Boolean => TypeView::Boolean,
            Type::Number => TypeView::Number,
            Type::String => TypeView::String,
            Type::Array => TypeView::Array,
            Type::Tuple => TypeView::Tuple,
            Type::Enum => TypeView::Enum,
            Type::Any => TypeView::Any,
            Type::Void => TypeView::Void,
            Type::Null => TypeView::Null,
            Type::Undefined => TypeView::Undefined,
            Type::Never => TypeView::Never,
            Type::Object => TypeView::Object,
            Type::Custom(name) => TypeView::Custom(name@),
        }
    }
}

/// One parameter of a function: its name and its type.
#[derive(Debug, PartialEq, Eq)]
pub struct Argument {
    pub name: String,
    pub taipu: Type,
}

/// An `Argument` as a mathematical value.
pub struct ArgumentView {
    pub name: Seq<char>,
    pub taipu: TypeView,
}

impl View for Argument {
    type V = ArgumentView;

    open spec fn view(&self) -> ArgumentView {
        ArgumentView { name: self.name@, taipu: self.taipu@ }
    }
}

/// One exported function: its name, its parameters in the order in which they
/// were declared, and the type it returns.
#[derive(Debug, PartialEq, Eq)]
pub struct Function {
    pub name: String,
    pub args: Vec<Argument>,
    pub return_type: Type,
}

/// A `Function` as a mathematical value.
pub struct FunctionView {
    pub name: Seq<char>,
    pub args: Seq<ArgumentView>,
    pub return_type: TypeView,
}

impl View for Function {
    type V = FunctionView;

    open spec fn view(&self) -> FunctionView {
        FunctionView {
            name: self.name@,
            args: views_of_arguments(self.args@),
            return_type: self.return_type@,
        }
    }
}

/// Tells whether `s` is a token: not empty, and with no whitespace at either
/// end.
pub open spec fn is_token(s: Seq<char>) -> bool {
    s.len() > 0 && !is_whitespace(s.first()) && !is_whitespace(s.last())
}

impl ArgumentView {
    /// An argument has a name, and a type that is written with a token.
    pub open spec fn well_formed(self) -> bool {
        is_token(self.name) && is_token(self.taipu.text())
    }
}

impl FunctionView {
    /// A function has a name, arguments that are well formed, and a return
    /// type that is written with a token.
    pub open spec fn well_formed(self) -> bool {
        &&& is_token(self.name)
        &&& forall|i: int| 0 <= i < self.args.len() ==> (#[trigger] self.args[i]).well_formed()
        &&& is_token(self.return_type.text())
    }
}

/// The arguments of `args` as mathematical values, in the same order.
pub open spec fn views_of_arguments(args: Seq<Argument>) -> Seq<ArgumentView> {
    Seq::new(args.len(), |i: int| args[i]@)
}

/// The functions of `functions` as mathematical values, in the same order.
pub open spec fn views_of_functions(functions: Seq<Function>) -> Seq<FunctionView> {
    Seq::new(functions.len(), |i: int| functions[i]@)
}

/// Why a text is no declaration.
#[derive(Debug, PartialEq, Eq, Clone, Copy)]
pub enum ParseError {
    /// A word or a sign of the grammar does not stand where it must, or a name
    /// or a type is missing.
    MalformedDeclaration,
    /// The text ends inside an argument list.
    UnterminatedArgumentList,
    /// The text ends inside a declaration, outside its argument list.
    UnterminatedSignature,
}

/// Tells whether `c` ends an argument's type: a `,` or a `)`.
pub fn is_argument_delimiter(c: char) -> (r: bool)
    ensures
        r == is_delimiter(c),
{
    c == ',' || c == ')'
}

/// Tells whether `c` is the `,` that parts two arguments.
pub fn is_comma(c: char) -> (r: bool)
    ensures
        r == (c == ','),
{
    c == ','
}

/// The built-in kind whose keyword the characters from `from` up to `to`
/// spell, if they spell one.
fn built_in(chars: &Vec<char>, from: usize, to: usize) -> (r: Option<Type>)
    requires
        from <= to <= chars.len(),
    ensures
        match r {
            Some(t) => t@ == resolve(chars@.subrange(from as int, to as int)) && !(t is Custom),
            None => resolve(chars@.subrange(from as int, to as int)) == TypeView::Custom(
                chars@.subrange(from as int, to as int),
            ),
        },
{
    if spells(chars, from, to, "boolean") {
        Some(Type::Boolean)
    } else if spells(chars, from, to, "number") {
        Some(Type::Number)
    } else if spells(chars, from, to, "string") {
        Some(Type::String)
    } else if spells(chars, from, to, "array") {
        Some(Type::Array)
    } else if spells(chars, from, to, "tuple") {
        Some(Type::Tuple)
    } else if spells(chars, from, to, "enum") {
        Some(Type::Enum)
    } else if spells(chars, from, to, "any") {
        Some(Type::Any)
    } else if spells(chars, from, to, "void") {
        Some(Type::Void)
    } else if spells(chars, from, to, "null") {
        Some(Type::Null)
    } else if spells(chars, from, to, "undefined") {
        Some(Type::Undefined)
    } else if spells(chars, from, to, "never") {
        Some(Type::Never)
    } else if spells(chars, from, to, "object") {
        Some(Type::Object)
    } else {
        None
    }
}

/// A text that is being read: all its characters, and as text what stands
/// from the character at `base` on.
struct Source<'c, 't> {
    chars: &'c Vec<char>,
    tail: &'t str,
    base: usize,
}

impl<'c, 't> Source<'c, 't> {
    /// The text and the characters are the same from `base` on.
    spec fn ready(&self) -> bool {
        self.base <= self.chars.len() && self.tail@ == self.chars@.skip(self.base as int)
    }

    /// The characters from `from` up to `to`, as text of their own.
    fn text(&self, from: usize, to: usize) -> (r: String)
        requires
            self.ready(),
            self.base <= from <= to <= self.chars.len(),
        ensures
            r@ == self.chars@.subrange(from as int, to as int),
    {
        proof {
            assert(self.tail@.subrange(from - self.base, to - self.base) =~= self.chars@.subrange(
                from as int,
                to as int,
            ));
        }
        String::from_str(self.tail.substring_char(from - self.base, to - self.base))
    }

    /// The text from the character at `from` on.
    fn rest(&self, from: usize) -> (r: &'t str)
        requires
            self.ready(),
            self.base <= from <= self.chars.len(),
        ensures
            r@ == self.chars@.skip(from as int),
    {
        proof {
            assert(self.tail@.subrange(from - self.base, self.chars.len() - self.base)
                =~= self.chars@.skip(from as int));
        }
        self.tail.substring_char(from - self.base, self.chars.len() - self.base)
    }
}

/// The type that the characters from `from` up to `to` name.
fn type_between(source: &Source, from: usize, to: usize) -> (t: Type)
    requires
        source.ready(),
        source.base <= from <= to <= source.chars.len(),
    ensures
        t@ == resolve(source.chars@.subrange(from as int, to as int)),
{
    match built_in(source.chars, from, to) {
        Some(t) => t,
        None => Type::Custom(source.text(from, to)),
    }
}

/// The type that the token `s` names. The token is taken as it is, not
/// trimmed; every token names a type.
pub fn to_type(s: &str) -> (t: Type)
    ensures
        t@ == resolve(s@),
{
    let chars = characters(s);
    proof {
        assert(chars@.subrange(0, chars@.len() as int) =~= s@);
    }
    match built_in(&chars, 0, chars.len()) {
        Some(t) => t,
        None => Type::Custom(String::from_str(s)),
    }
}

/// Reads one argument from the character at `from` on.
fn argument_at(source: &Source, from: usize) -> (r: Result<(usize, Argument), ParseError>)
    requires
        source.ready(),
        source.base <= from <= source.chars.len(),
    ensures
        match argument(source.chars@.skip(from as int)) {
            Ok((rest, arg)) => r matches Ok((end, a)) && from < end < source.chars.len()
                && source.chars@.skip(end as int) == rest && a@ == arg,
            Err(e) => r matches Err(x) && x == e,
        },
{
    let chars = source.chars;
    let ghost s = chars@.skip(from as int);
    let colon: usize = find(chars, from, ':', ':');
    if colon >= chars.len() {
        return Err(ParseError::UnterminatedArgumentList);
    }
    let name_at = trim_range(chars, from, colon);
    let stop: usize = find(chars, colon + 1, ',', ')');
    proof {
        assert(s.take(colon - from) =~= chars@.subrange(from as int, colon as int));
        assert(s.skip(colon - from + 1) =~= chars@.skip(colon + 1));
    }
    if name_at.0 == name_at.1 {
        return Err(ParseError::MalformedDeclaration);
    }
    if stop >= chars.len() {
        return Err(ParseError::UnterminatedArgumentList);
    }
    let type_at = trim_range(chars, colon + 1, stop);
    proof {
        let after = chars@.skip(colon + 1);
        assert(after.take(stop - (colon + 1)) =~= chars@.subrange(colon + 1, stop as int));
        assert(after.skip(stop - (colon + 1)) =~= chars@.skip(stop as int));
    }
    if type_at.0 == type_at.1 {
        return Err(ParseError::MalformedDeclaration);
    }
    let name = source.text(name_at.0, name_at.1);
    let taipu = type_between(source, type_at.0, type_at.1);
    Ok((stop, Argument { name, taipu }))
}

/// Reads one argument: a name up to the next `:`, then a type up to the next
/// `,` or `)`, which is left unread. Name and type are trimmed, and neither
/// may be empty.
pub fn parse_one_arg(input: &str) -> (r: Result<(&str, Argument), ParseError>)
    ensures
        match argument(input@) {
            Ok((rest, arg)) => r matches Ok((left, a)) && left@ == rest && a@ == arg,
            Err(e) => r matches Err(x) && x == e,
        },
{
    let chars = characters(input);
    let source = Source { chars: &chars, tail: input, base: 0 };
    proof {
        assert(chars@.skip(0) =~= input@);
    }
    match argument_at(&source, 0) {
        Err(e) => Err(e),
        Ok((end, a)) => Ok((source.rest(end), a)),
    }
}

/// Reads one argument and the `,` behind it.
pub fn parse_arg_with_comma(input: &str) -> (r: Result<(&str, Argument), ParseError>)
    ensures
        match argument_with_comma(input@) {
            Ok((rest, arg)) => r matches Ok((left, a)) && left@ == rest && a@ == arg,
            Err(e) => r matches Err(x) && x == e,
        },
{
    let chars = characters(input);
    let source = Source { chars: &chars, tail: input, base: 0 };
    proof {
        assert(chars@.skip(0) =~= input@);
    }
    match argument_at(&source, 0) {
        Err(e) => Err(e),
        Ok((end, a)) => {
            if is_comma(chars[end]) {
                proof {
                    assert(chars@.skip(end as int).skip(1) =~= chars@.skip(end + 1));
                }
                Ok((source.rest(end + 1), a))
            } else {
                Err(ParseError::MalformedDeclaration)
            }
        },
    }
}

/// Reads one argument or more from the character at `from` on, up to and
/// with the `)` behind the last.
fn arguments_at(source: &Source, from: usize) -> (r: Result<(usize, Vec<Argument>), ParseError>)
    requires
        source.ready(),
        source.base <= from <= source.chars.len(),
    ensures
        match arguments(source.chars@.skip(from as int)) {
            Ok((rest, args)) => r matches Ok((end, found)) && from < end <= source.chars.len()
                && source.chars@.skip(end as int) == rest && views_of_arguments(found@) == args,
            Err(e) => r matches Err(x) && x == e,
        },
{
    let chars = source.chars;
    let mut found: Vec<Argument> = Vec::new();
    let mut at: usize = from;
    loop
        invariant
            source.ready(),
            chars == source.chars,
            source.base <= from <= at <= chars.len(),
            match arguments(chars@.skip(at as int)) {
                Ok((rest, more)) => arguments(chars@.skip(from as int)) == Ok::<
                    (Seq<char>, Seq<ArgumentView>),
                    ParseError,
                >((rest, views_of_arguments(found@) + more)),
                Err(e) => arguments(chars@.skip(from as int)) == Err::<
                    (Seq<char>, Seq<ArgumentView>),
                    ParseError,
                >(e),
            },
        decreases chars.len() - at,
    {
        let ghost before = found@;
        match argument_at(source, at) {
            Err(e) => {
                return Err(e);
            },
            Ok((stop, a)) => {
                let ghost first = a@;
                found.push(a);
                proof {
                    assert(chars@.skip(stop as int)[0] == chars@[stop as int]);
                    assert(chars@.skip(stop as int).skip(1) =~= chars@.skip(stop + 1));
                    assert(views_of_arguments(found@) =~= views_of_arguments(before) + seq![first]);
                }
                if is_comma(chars[stop]) {
                    proof {
                        if let Ok((rest, more)) = arguments(chars@.skip(stop + 1)) {
                            assert(views_of_arguments(before) + (seq![first] + more)
                                =~= views_of_arguments(found@) + more);
                        }
                    }
                    at = stop + 1;
                } else {
                    return Ok((stop + 1, found));
                }
            },
        }
    }
}

/// Reads an argument list from the character at `from` on.
fn argument_list_at(source: &Source, from: usize) -> (r: Result<
    (usize, Vec<Argument>),
    ParseError,
>)
    requires
        source.ready(),
        source.base <= from <= source.chars.len(),
    ensures
        match argument_list(source.chars@.skip(from as int)) {
            Ok((rest, args)) => r matches Ok((end, found)) && from < end <= source.chars.len()
                && source.chars@.skip(end as int) == rest && views_of_arguments(found@) == args,
            Err(e) => r matches Err(x) && x == e,
        },
{
    let chars = source.chars;
    let ghost s = chars@.skip(from as int);
    if from >= chars.len() || chars[from] != '(' {
        return Err(ParseError::MalformedDeclaration);
    }
    if from + 1 < chars.len() && chars[from + 1] == ')' {
        let none: Vec<Argument> = Vec::new();
        proof {
            assert(s[1] == chars@[from + 1]);
            assert(s.skip(2) =~= chars@.skip(from + 2));
            assert(views_of_arguments(none@) =~= Seq::<ArgumentView>::empty());
        }
        return Ok((from + 2, none));
    }
    proof {
        if s.len() > 1 {
            assert(s[1] == chars@[from + 1]);
        }
        assert(s.skip(1) =~= chars@.skip(from + 1));
    }
    arguments_at(source, from + 1)
}

/// Reads an argument list: `(`, then `)` at once, or one argument or more
/// with a `,` between each two and then `)`. The arguments come in the order
/// in which they stand. One argument that cannot be read fails the list.
pub fn parse_args(input: &str) -> (r: Result<(&str, Vec<Argument>), ParseError>)
    ensures
        match argument_list(input@) {
            Ok((rest, args)) => r matches Ok((left, found)) && left@ == rest
                && views_of_arguments(found@) == args,
            Err(e) => r matches Err(x) && x == e,
        },
{
    let chars = characters(input);
    let source = Source { chars: &chars, tail: input, base: 0 };
    proof {
        assert(chars@.skip(0) =~= input@);
    }
    match argument_list_at(&source, 0) {
        Err(e) => Err(e),
        Ok((end, found)) => Ok((source.rest(end), found)),
    }
}

/// Reads a return type from the character at `from` on.
fn return_type_at(source: &Source, from: usize) -> (r: Result<(usize, Type), ParseError>)
    requires
        source.ready(),
        source.base <= from <= source.chars.len(),
    ensures
        match return_type(source.chars@.skip(from as int)) {
            Ok((rest, returned)) => r matches Ok((end, t)) && from < end < source.chars.len()
                && source.chars@[end as int] == ';' && source.chars@.skip(end as int) == rest
                && t@ == returned,
            Err(e) => r matches Err(x) && x == e,
        },
{
    let chars = source.chars;
    let ghost s = chars@.skip(from as int);
    let semicolon: usize = find(chars, from, ';', ';');
    if semicolon >= chars.len() {
        return Err(ParseError::UnterminatedSignature);
    }
    let token_at = trim_range(chars, from, semicolon);
    proof {
        assert(s.take(semicolon - from) =~= chars@.subrange(from as int, semicolon as int));
        assert(s.skip(semicolon - from) =~= chars@.skip(semicolon as int));
    }
    if token_at.0 == token_at.1 {
        return Err(ParseError::MalformedDeclaration);
    }
    Ok((semicolon, type_between(source, token_at.0, token_at.1)))
}

/// Reads a return type: the text up to the next `;`, which is left unread.
/// The type is trimmed and may not be empty.
pub fn parse_return_type(input: &str) -> (r: Result<(&str, Type), ParseError>)
    ensures
        match return_type(input@) {
            Ok((rest, returned)) => r matches Ok((left, t)) && left@ == rest && t@ == returned,
            Err(e) => r matches Err(x) && x == e,
        },
{
    let chars = characters(input);
    let source = Source { chars: &chars, tail: input, base: 0 };
    proof {
        assert(chars@.skip(0) =~= input@);
    }
    match return_type_at(&source, 0) {
        Err(e) => Err(e),
        Ok((end, t)) => Ok((source.rest(end), t)),
    }
}

/// Reads the keyword `word` from the character at `from` on.
fn keyword_at(chars: &Vec<char>, from: usize, word: &str) -> (r: Result<usize, ParseError>)
    requires
        from <= chars.len(),
    ensures
        match keyword(chars@.skip(from as int), word@) {
            Ok(rest) => r matches Ok(end) && from <= end < chars.len() && chars@.skip(end as int)
                == rest,
            Err(e) => r matches Err(x) && x == e,
        },
{
    let ghost s = chars@.skip(from as int);
    let start: usize = skip_whitespace(chars, from);
    let n: usize = word.unicode_len();
    proof {
        assert(trim_start(s) =~= chars@.skip(start as int));
    }
    if n >= chars.len() - start {
        return Err(ParseError::MalformedDeclaration);
    }
    let ghost t = chars@.skip(start as int);
    proof {
        assert(t.subrange(0, n as int) =~= chars@.subrange(start as int, start + n));
        assert(t[n as int] == chars@[start + n]);
        assert(t.skip(n as int) =~= chars@.skip(start + n));
    }
    if spells(chars, start, start + n, word) && is_space(chars[start + n]) {
        Ok(start + n)
    } else {
        Err(ParseError::MalformedDeclaration)
    }
}

/// Reads a signature from the character at `from` on.
fn signature_at(source: &Source, from: usize) -> (r: Result<(usize, Function), ParseError>)
    requires
        source.ready(),
        source.base <= from <= source.chars.len(),
    ensures
        match signature(source.chars@.skip(from as int)) {
            Ok((rest, f)) => r matches Ok((end, g)) && from < end <= source.chars.len()
                && source.chars@.skip(end as int) == rest && g@ == f,
            Err(e) => r matches Err(x) && x == e,
        },
{
    let chars = source.chars;
    let ghost s = chars@.skip(from as int);
    let paren: usize = find(chars, from, '(', '(');
    if paren >= chars.len() {
        return Err(ParseError::UnterminatedSignature);
    }
    let name_at = trim_range(chars, from, paren);
    proof {
        assert(s.take(paren - from) =~= chars@.subrange(from as int, paren as int));
        assert(s.skip(paren - from) =~= chars@.skip(paren as int));
    }
    if name_at.0 == name_at.1 {
        return Err(ParseError::MalformedDeclaration);
    }
    let (after_list, args) = match argument_list_at(source, paren) {
        Err(e) => {
            return Err(e);
        },
        Ok(read) => read,
    };
    let colon: usize = skip_whitespace(chars, after_list);
    proof {
        let t = trim_start(chars@.skip(after_list as int));
        assert(t =~= chars@.skip(colon as int));
        if colon < chars.len() {
            assert(t[0] == chars@[colon as int]);
            assert(t.skip(1) =~= chars@.skip(colon + 1));
        }
    }
    if colon >= chars.len() || chars[colon] != ':' {
        return Err(ParseError::MalformedDeclaration);
    }
    let (semicolon, returned) = match return_type_at(source, colon + 1) {
        Err(e) => {
            return Err(e);
        },
        Ok(read) => read,
    };
    proof {
        assert(chars@.skip(semicolon as int).skip(1) =~= chars@.skip(semicolon + 1));
    }
    let name = source.text(name_at.0, name_at.1);
    Ok((semicolon + 1, Function { name, args, return_type: returned }))
}

/// Reads one declaration from the character at `from` on.
fn function_at(source: &Source, from: usize) -> (r: Result<(usize, Function), ParseError>)
    requires
        source.ready(),
        source.base <= from <= source.chars.len(),
    ensures
        match function(source.chars@.skip(from as int)) {
            Ok((rest, f)) => r matches Ok((end, g)) && from < end <= source.chars.len()
                && source.chars@.skip(end as int) == rest && g@ == f,
            Err(e) => r matches Err(x) && x == e,
        },
{
    let after_export: usize = match keyword_at(source.chars, from, "export") {
        Err(e) => {
            return Err(e);
        },
        Ok(end) => end,
    };
    let after_function: usize = match keyword_at(source.chars, after_export, "function") {
        Err(e) => {
            return Err(e);
        },
        Ok(end) => end,
    };
    signature_at(source, after_function)
}

/// Reads one declaration: the words `export` and `function`, the function's
/// name up to the next `(`, the argument list, a `:`, the return type up to
/// the next `;`, and that `;`. Whitespace may stand before either word, round
/// the name and each type, and before the `:`; it must stand behind either
/// word. The name is trimmed and may not be empty. What cannot be read as a
/// whole is not read at all.
pub fn parse_function(input: &str) -> (r: Result<(&str, Function), ParseError>)
    ensures
        match function(input@) {
            Ok((rest, f)) => r matches Ok((left, g)) && left@ == rest && g@ == f,
            Err(e) => r matches Err(x) && x == e,
        },
{
    let chars = characters(input);
    let source = Source { chars: &chars, tail: input, base: 0 };
    proof {
        assert(chars@.skip(0) =~= input@);
    }
    match function_at(&source, 0) {
        Err(e) => Err(e),
        Ok((end, g)) => Ok((source.rest(end), g)),
    }
}

/// Reads a declaration file: the declarations that stand one behind the other
/// from the start of `input`, in that order. It stops where no declaration
/// can be read, leaves the text from there on unread, and never fails: a text
/// that begins with no declaration gives no function and is left whole.
pub fn parse_definition_file(input: &str) -> (r: Result<(&str, Vec<Function>), ParseError>)
    ensures
        r matches Ok((left, found)) && left@ == declarations(input@).0 && views_of_functions(
            found@,
        ) == declarations(input@).1,
{
    let chars = characters(input);
    let mut source = Source { chars: &chars, tail: input, base: 0 };
    let mut found: Vec<Function> = Vec::new();
    proof {
        assert(chars@.skip(0) =~= input@);
        assert(views_of_functions(found@) + declarations(input@).1 =~= declarations(input@).1);
    }
    loop
        invariant
            chars@ == input@,
            source.chars == &chars,
            source.ready(),
            declarations(input@).0 == declarations(source.tail@).0,
            declarations(input@).1 == views_of_functions(found@) + declarations(source.tail@).1,
        decreases chars.len() - source.base,
    {
        let ghost before = found@;
        match function_at(&source, source.base) {
            Err(_) => {
                proof {
                    assert(views_of_functions(found@) + Seq::<FunctionView>::empty()
                        =~= views_of_functions(found@));
                }
                return Ok((source.tail, found));
            },
            Ok((end, g)) => {
                let ghost first = g@;
                found.push(g);
                proof {
                    assert(views_of_functions(found@) =~= views_of_functions(before) + seq![first]);
                    assert(views_of_functions(before) + (seq![first] + declarations(
                        chars@.skip(end as int),
                    ).1) =~= views_of_functions(found@) + declarations(chars@.skip(end as int)).1);
                }
                source = Source { chars: &chars, tail: source.rest(end), base: end };
            },
        }
    }
}

} // verus!
