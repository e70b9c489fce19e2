//! The grammar of a declaration file, as functions on sequences of
//! characters.
//!
//! ```text
//! file        := declaration*
//! declaration := ws* "export" ws+ "function" ws+ name "(" args ")" ws* ":" type ";"
//! args        := (arg ("," arg)*)?
//! arg         := name ":" type
//! ```
//!
//! A name is the text up to the next `(` or `:`, a type the text up to the
//! next `,`, `)` or `;`. Both are trimmed and neither may be empty.
//!
//! Each function takes the text that is left to read and gives the text that
//! is left after it, with what it has read, or the reason why it cannot read.

use crate::parser::{ArgumentView, FunctionView, ParseError, TypeView};
use crate::text::{is_whitespace, leading_whitespace, position, trim, trim_start};
use crate::text::{
    lemma_leading_whitespace_stops, lemma_position, lemma_position_stops, lemma_trim_is_tight,
};
use vstd::prelude::*;

verus! {

/// The type that a trimmed token names: a built-in kind where the token is
/// its keyword, letter for letter, and else a custom type of that name.
pub open spec fn resolve(token: Seq<char>) -> TypeView {
    if token == "boolean"@ {
        TypeView::Boolean
    } else if token == "number"@ {
        TypeView::Number
    } else if token == "string"@ {
        TypeView::String
    } else if token == "array"@ {
        TypeView::Array
    } else if token == "tuple"@ {
        TypeView::Tuple
    } else if token == "enum"@ {
        TypeView::Enum
    } else if token == "any"@ {
        TypeView::Any
    } else if token == "void"@ {
        TypeView::Void
    } else if token == "null"@ {
        TypeView::Null
    } else if token == "undefined"@ {
        TypeView::Undefined
    } else if token == "never"@ {
        TypeView::Never
    } else if token == "object"@ {
        TypeView::Object
    } else {
        TypeView::Custom(token)
    }
}

/// The signs that end an argument's type.
pub open spec fn is_delimiter(c: char) -> bool {
    c == ',' || c == ')'
}

/// One argument: a name up to the next `:`, then a type up to the next `,` or
/// `)`, which is left unread.
pub open spec fn argument(s: Seq<char>) -> Result<(Seq<char>, ArgumentView), ParseError> {
    let colon = position(s, ':', ':') as int;
    if colon >= s.len() {
        Err(ParseError::UnterminatedArgumentList)
    } else {
        let name = trim(s.take(colon));
        let after = s.skip(colon + 1);
        let stop = position(after, ',', ')') as int;
        if name.len() == 0 {
            Err(ParseError::MalformedDeclaration)
        } else if stop >= after.len() {
            Err(ParseError::UnterminatedArgumentList)
        } else {
            let token = trim(after.take(stop));
            if token.len() == 0 {
                Err(ParseError::MalformedDeclaration)
            } else {
                Ok((after.skip(stop), ArgumentView { name, taipu: resolve(token) }))
            }
        }
    }
}

/// One argument and the `,` behind it.
pub open spec fn argument_with_comma(s: Seq<char>) -> Result<
    (Seq<char>, ArgumentView),
    ParseError,
> {
    match argument(s) {
        Err(e) => Err(e),
        Ok((rest, arg)) => if rest.len() > 0 && rest[0] == ',' {
            Ok((rest.skip(1), arg))
        } else {
            Err(ParseError::MalformedDeclaration)
        },
    }
}

/// One argument or more, with a `,` between each two and a `)` behind the last.
pub open spec fn arguments(s: Seq<char>) -> Result<(Seq<char>, Seq<ArgumentView>), ParseError>
    decreases s.len(),
    via arguments_decreases
{
    match argument(s) {
        Err(e) => Err(e),
        Ok((rest, first)) => if rest.len() > 0 && rest[0] == ',' {
            match arguments(rest.skip(1)) {
                Err(e) => Err(e),
                Ok((end, others)) => Ok((end, seq![first] + others)),
            }
        } else {
            Ok((rest.skip(1), seq![first]))
        },
    }
}

#[via_fn]
proof fn arguments_decreases(s: Seq<char>) {
    lemma_argument_consumes(s);
}

/// An argument list: `(`, then `)` at once or the arguments and their `)`.
pub open spec fn argument_list(s: Seq<char>) -> Result<
    (Seq<char>, Seq<ArgumentView>),
    ParseError,
> {
    if s.len() == 0 || s[0] != '(' {
        Err(ParseError::MalformedDeclaration)
    } else if s.len() > 1 && s[1] == ')' {
        Ok((s.skip(2), Seq::empty()))
    } else {
        arguments(s.skip(1))
    }
}

/// A return type: the text up to the next `;`, which is left unread.
pub open spec fn return_type(s: Seq<char>) -> Result<(Seq<char>, TypeView), ParseError> {
    let semicolon = position(s, ';', ';') as int;
    if semicolon >= s.len() {
        Err(ParseError::UnterminatedSignature)
    } else {
        let token = trim(s.take(semicolon));
        if token.len() == 0 {
            Err(ParseError::MalformedDeclaration)
        } else {
            Ok((s.skip(semicolon), resolve(token)))
        }
    }
}

/// A keyword: whitespace or none, then `word`, then whitespace, which is left
/// unread.
pub open spec fn keyword(s: Seq<char>, word: Seq<char>) -> Result<Seq<char>, ParseError> {
    let t = trim_start(s);
    if word.is_prefix_of(t) && t.len() > word.len() && is_whitespace(t[word.len() as int]) {
        Ok(t.skip(word.len() as int))
    } else {
        Err(ParseError::MalformedDeclaration)
    }
}

/// What follows the two keywords of a declaration: the function's name up to
/// the next `(`, the argument list, `:`, the return type and `;`.
pub open spec fn signature(s: Seq<char>) -> Result<(Seq<char>, FunctionView), ParseError> {
    let paren = position(s, '(', '(') as int;
    if paren >= s.len() {
        Err(ParseError::UnterminatedSignature)
    } else {
        let name = trim(s.take(paren));
        if name.len() == 0 {
            Err(ParseError::MalformedDeclaration)
        } else {
            match argument_list(s.skip(paren)) {
                Err(e) => Err(e),
                Ok((after_list, args)) => {
                    let t = trim_start(after_list);
                    if t.len() == 0 || t[0] != ':' {
                        Err(ParseError::MalformedDeclaration)
                    } else {
                        match return_type(t.skip(1)) {
                            Err(e) => Err(e),
                            Ok((rest, returned)) => Ok(
                                (rest.skip(1), FunctionView { name, args, return_type: returned }),
                            ),
                        }
                    }
                },
            }
        }
    }
}

/// One declaration: `export`, `function`, and the signature.
pub open spec fn function(s: Seq<char>) -> Result<(Seq<char>, FunctionView), ParseError> {
    match keyword(s, "export"@) {
        Err(e) => Err(e),
        Ok(after_export) => match keyword(after_export, "function"@) {
            Err(e) => Err(e),
            Ok(after_function) => signature(after_function),
        },
    }
}

/// A declaration file: the declarations that stand one behind the other from
/// the start of `s`, and the text from where no declaration begins.
pub open spec fn declarations(s: Seq<char>) -> (Seq<char>, Seq<FunctionView>)
    decreases s.len(),
    via declarations_decreases
{
    match function(s) {
        Err(_) => (s, Seq::empty()),
        Ok((rest, first)) => {
            let (end, others) = declarations(rest);
            (end, seq![first] + others)
        },
    }
}

#[via_fn]
proof fn declarations_decreases(s: Seq<char>) {
    lemma_function_consumes(s);
}

/// What is left after skipping some characters of `s` is a suffix of `s`.
pub proof fn lemma_skip_is_suffix(s: Seq<char>, n: int)
    requires
        0 <= n <= s.len(),
    ensures
        s.skip(n).is_suffix_of(s),
        s.skip(n).len() == s.len() - n,
{
    assert(s.skip(n) =~= s.subrange(s.len() - s.skip(n).len(), s.len() as int));
}

/// A suffix of a suffix of `c` is a suffix of `c`.
pub proof fn lemma_suffix_of_suffix(a: Seq<char>, b: Seq<char>, c: Seq<char>)
    requires
        a.is_suffix_of(b),
        b.is_suffix_of(c),
    ensures
        a.is_suffix_of(c),
{
    let in_b = b.subrange(b.len() - a.len(), b.len() as int);
    let in_c = c.subrange(c.len() - a.len(), c.len() as int);
    assert(b =~= c.subrange(c.len() - b.len(), c.len() as int));
    assert(in_b =~= in_c);
    assert(a =~= in_b);
}

/// An argument that was read leaves less than it was given, and what it
/// leaves begins with the `,` or `)` that ended it.
pub proof fn lemma_argument_consumes(s: Seq<char>)
    ensures
        argument(s) matches Ok((rest, arg)) ==> {
            &&& rest.len() + 2 < s.len()
            &&& rest.is_suffix_of(s)
            &&& is_delimiter(rest[0])
            &&& arg.name.len() > 0
        },
{
    lemma_position_stops(s, ':', ':');
    let colon = position(s, ':', ':') as int;
    if colon < s.len() {
        let after = s.skip(colon + 1);
        lemma_position_stops(after, ',', ')');
        let stop = position(after, ',', ')') as int;
        if argument(s) is Ok {
            let rest = after.skip(stop);
            lemma_trim_is_tight(s.take(colon));
            lemma_trim_is_tight(after.take(stop));
            assert(rest =~= s.skip(colon + 1 + stop));
            lemma_skip_is_suffix(s, colon + 1 + stop);
            assert(rest[0] == after[stop]);
        }
    }
}

/// The arguments that were read are one or more, and leave less than they
/// were given.
pub proof fn lemma_arguments_consume(s: Seq<char>)
    ensures
        arguments(s) matches Ok((rest, args)) ==> {
            &&& rest.len() + 3 < s.len()
            &&& rest.is_suffix_of(s)
            &&& args.len() > 0
        },
    decreases s.len(),
{
    lemma_argument_consumes(s);
    if let Ok((rest, first)) = argument(s) {
        lemma_skip_is_suffix(rest, 1);
        lemma_suffix_of_suffix(rest.skip(1), rest, s);
        if rest.len() > 0 && rest[0] == ',' {
            lemma_arguments_consume(rest.skip(1));
            if let Ok((end, others)) = arguments(rest.skip(1)) {
                lemma_suffix_of_suffix(end, rest.skip(1), s);
            }
        }
    }
}

/// An argument list that was read leaves less than it was given.
pub proof fn lemma_argument_list_consumes(s: Seq<char>)
    ensures
        argument_list(s) matches Ok((rest, args)) ==> {
            &&& rest.len() + 2 <= s.len()
            &&& rest.is_suffix_of(s)
        },
{
    if s.len() > 0 && s[0] == '(' {
        if s.len() > 1 && s[1] == ')' {
            lemma_skip_is_suffix(s, 2);
        } else {
            lemma_arguments_consume(s.skip(1));
            lemma_skip_is_suffix(s, 1);
            if let Ok((rest, args)) = arguments(s.skip(1)) {
                lemma_suffix_of_suffix(rest, s.skip(1), s);
            }
        }
    }
}

/// A return type that was read is followed by its `;`.
pub proof fn lemma_return_type_consumes(s: Seq<char>)
    ensures
        return_type(s) matches Ok((rest, returned)) ==> {
            &&& 0 < rest.len() < s.len()
            &&& rest.is_suffix_of(s)
            &&& rest[0] == ';'
        },
{
    lemma_position_stops(s, ';', ';');
    let semicolon = position(s, ';', ';') as int;
    if return_type(s) is Ok {
        lemma_trim_is_tight(s.take(semicolon));
        lemma_skip_is_suffix(s, semicolon);
    }
}

/// A keyword that was read leaves less than it was given.
pub proof fn lemma_keyword_consumes(s: Seq<char>, word: Seq<char>)
    ensures
        keyword(s, word) matches Ok(rest) ==> {
            &&& 0 < rest.len()
            &&& rest.len() + word.len() <= s.len()
            &&& rest.is_suffix_of(s)
        },
{
    lemma_leading_whitespace_stops(s);
    if let Ok(rest) = keyword(s, word) {
        let t = trim_start(s);
        lemma_skip_is_suffix(s, leading_whitespace(s) as int);
        lemma_skip_is_suffix(t, word.len() as int);
        lemma_suffix_of_suffix(rest, t, s);
    }
}

/// A signature that was read leaves less than it was given.
pub proof fn lemma_signature_consumes(s: Seq<char>)
    ensures
        signature(s) matches Ok((rest, f)) ==> {
            &&& rest.len() + 5 <= s.len()
            &&& rest.is_suffix_of(s)
            &&& f.name.len() > 0
        },
{
    lemma_position_stops(s, '(', '(');
    let paren = position(s, '(', '(') as int;
    if let Ok((rest, f)) = signature(s) {
        lemma_trim_is_tight(s.take(paren));
        let list = s.skip(paren);
        lemma_skip_is_suffix(s, paren);
        lemma_argument_list_consumes(list);
        let after_list = argument_list(list)->Ok_0.0;
        let t = trim_start(after_list);
        lemma_leading_whitespace_stops(after_list);
        lemma_skip_is_suffix(after_list, leading_whitespace(after_list) as int);
        lemma_skip_is_suffix(t, 1);
        lemma_return_type_consumes(t.skip(1));
        let before_semicolon = return_type(t.skip(1))->Ok_0.0;
        lemma_skip_is_suffix(before_semicolon, 1);
        lemma_suffix_of_suffix(rest, before_semicolon, t.skip(1));
        lemma_suffix_of_suffix(rest, t.skip(1), t);
        lemma_suffix_of_suffix(rest, t, after_list);
        lemma_suffix_of_suffix(rest, after_list, list);
        lemma_suffix_of_suffix(rest, list, s);
    }
}

/// A declaration that was read leaves less than it was given.
pub proof fn lemma_function_consumes(s: Seq<char>)
    ensures
        function(s) matches Ok((rest, f)) ==> {
            &&& rest.len() < s.len()
            &&& rest.is_suffix_of(s)
            &&& f.name.len() > 0
        },
{
    if let Ok((rest, f)) = function(s) {
        lemma_keyword_consumes(s, "export"@);
        let after_export = keyword(s, "export"@)->Ok_0;
        lemma_keyword_consumes(after_export, "function"@);
        let after_function = keyword(after_export, "function"@)->Ok_0;
        lemma_signature_consumes(after_function);
        lemma_suffix_of_suffix(rest, after_function, after_export);
        lemma_suffix_of_suffix(rest, after_export, s);
    }
}

/// Tells whether `token` is the keyword of a built-in kind.
pub open spec fn is_keyword(token: Seq<char>) -> bool {
    token == "boolean"@ || token == "number"@ || token == "string"@ || token == "array"@ || token
        == "tuple"@ || token == "enum"@ || token == "any"@ || token == "void"@ || token == "null"@
        || token == "undefined"@ || token == "never"@ || token == "object"@
}

/// Each keyword names its own kind.
pub proof fn lemma_keywords_resolve()
    ensures
        resolve("boolean"@) == TypeView::Boolean,
        resolve("number"@) == TypeView::Number,
        resolve("string"@) == TypeView::String,
        resolve("array"@) == TypeView::Array,
        resolve("tuple"@) == TypeView::Tuple,
        resolve("enum"@) == TypeView::Enum,
        resolve("any"@) == TypeView::Any,
        resolve("void"@) == TypeView::Void,
        resolve("null"@) == TypeView::Null,
        resolve("undefined"@) == TypeView::Undefined,
        resolve("never"@) == TypeView::Never,
        resolve("object"@) == TypeView::Object,
{
    reveal_strlit("boolean");
    reveal_strlit("number");
    reveal_strlit("string");
    reveal_strlit("array");
    reveal_strlit("tuple");
    reveal_strlit("enum");
    reveal_strlit("any");
    reveal_strlit("void");
    reveal_strlit("null");
    reveal_strlit("undefined");
    reveal_strlit("never");
    reveal_strlit("object");
    assert("any"@.len() == 3);
    assert("enum"@.len() == 4 && "void"@.len() == 4 && "null"@.len() == 4);
    assert("array"@.len() == 5 && "tuple"@.len() == 5 && "never"@.len() == 5);
    assert("number"@.len() == 6 && "string"@.len() == 6 && "object"@.len() == 6);
    assert("boolean"@.len() == 7 && "undefined"@.len() == 9);
    assert("enum"@[0] == 'e' && "void"@[0] == 'v' && "null"@[0] == 'n');
    assert("array"@[0] == 'a' && "tuple"@[0] == 't' && "never"@[0] == 'n');
    assert("number"@[0] == 'n' && "string"@[0] == 's' && "object"@[0] == 'o');
}

/// A token that is no keyword names the custom type of that very name, and
/// only such a token names a custom type.
pub proof fn lemma_other_tokens_are_custom(token: Seq<char>)
    ensures
        !is_keyword(token) ==> resolve(token) == TypeView::Custom(token),
        is_keyword(token) ==> !(resolve(token) is Custom),
{
}

/// The type that a token names is written as that token.
pub proof fn lemma_resolve_keeps_text(token: Seq<char>)
    ensures
        resolve(token).text() == token,
{
}

/// An argument that was read has a name and a type, both trimmed.
pub proof fn lemma_argument_is_well_formed(s: Seq<char>)
    ensures
        argument(s) matches Ok((rest, arg)) ==> arg.well_formed(),
{
    if let Ok((rest, arg)) = argument(s) {
        let colon = position(s, ':', ':') as int;
        let after = s.skip(colon + 1);
        let stop = position(after, ',', ')') as int;
        lemma_trim_is_tight(s.take(colon));
        lemma_trim_is_tight(after.take(stop));
        lemma_resolve_keeps_text(trim(after.take(stop)));
    }
}

/// The arguments that were read each have a name and a type, both trimmed.
pub proof fn lemma_arguments_are_well_formed(s: Seq<char>)
    ensures
        arguments(s) matches Ok((rest, args)) ==> forall|i: int|
            0 <= i < args.len() ==> (#[trigger] args[i]).well_formed(),
    decreases s.len(),
{
    lemma_argument_consumes(s);
    lemma_argument_is_well_formed(s);
    if let Ok((rest, first)) = argument(s) {
        if rest.len() > 0 && rest[0] == ',' {
            lemma_arguments_are_well_formed(rest.skip(1));
        }
    }
}

/// A declaration that was read gives a function that is well formed: it and
/// its arguments have names, and each type is written with a token.
pub proof fn lemma_function_is_well_formed(s: Seq<char>)
    ensures
        function(s) matches Ok((rest, f)) ==> f.well_formed(),
{
    if let Ok((rest, f)) = function(s) {
        let after_export = keyword(s, "export"@)->Ok_0;
        let t = keyword(after_export, "function"@)->Ok_0;
        let paren = position(t, '(', '(') as int;
        lemma_trim_is_tight(t.take(paren));
        let list = t.skip(paren);
        if !(list.len() > 1 && list[1] == ')') {
            lemma_arguments_are_well_formed(list.skip(1));
        }
        let after_list = argument_list(list)->Ok_0.0;
        let u = trim_start(after_list).skip(1);
        let semicolon = position(u, ';', ';') as int;
        lemma_trim_is_tight(u.take(semicolon));
        lemma_resolve_keeps_text(trim(u.take(semicolon)));
    }
}

/// Where a declaration stands at the start of `s`, the file gives it first
/// and then what the file gives of the text behind it; where none stands
/// there, the file gives nothing and leaves `s` whole.
pub proof fn lemma_declarations_step(s: Seq<char>)
    ensures
        match function(s) {
            Ok((rest, first)) => declarations(s) == (
                declarations(rest).0,
                seq![first] + declarations(rest).1,
            ),
            Err(_) => declarations(s) == (s, Seq::<FunctionView>::empty()),
        },
{
}

/// What a file leaves unread is the end of its text and begins with no
/// declaration, so that reading it again gives nothing and leaves it whole.
pub proof fn lemma_declarations_stop(s: Seq<char>)
    ensures
        declarations(s).0.is_suffix_of(s),
        function(declarations(s).0) is Err,
        declarations(declarations(s).0) == (declarations(s).0, Seq::<FunctionView>::empty()),
    decreases s.len(),
{
    lemma_function_consumes(s);
    match function(s) {
        Ok((rest, first)) => {
            lemma_declarations_stop(rest);
            lemma_suffix_of_suffix(declarations(rest).0, rest, s);
        },
        Err(_) => {
            lemma_skip_is_suffix(s, 0);
            assert(s.skip(0) =~= s);
        },
    }
}

/// The functions that a file gives are well formed, and there are no more of
/// them than characters were read.
pub proof fn lemma_declarations_are_well_formed(s: Seq<char>)
    ensures
        declarations(s).0.len() + declarations(s).1.len() <= s.len(),
        forall|i: int|
            0 <= i < declarations(s).1.len() ==> (#[trigger] declarations(s).1[i]).well_formed(),
    decreases s.len(),
{
    lemma_function_consumes(s);
    lemma_function_is_well_formed(s);
    if let Ok((rest, first)) = function(s) {
        lemma_declarations_are_well_formed(rest);
    }
}

/// A name without `:`, a `:`, a type without `,` or `)`, and one of these two
/// signs read as an argument of that name and type, both trimmed, and leave
/// the sign unread, whatever stands behind it. Where the name or the type is
/// blank, they do not read at all.
pub proof fn lemma_argument_reads(name: Seq<char>, token: Seq<char>, sign: char, tail: Seq<char>)
    requires
        !name.contains(':'),
        !token.contains(',') && !token.contains(')'),
        is_delimiter(sign),
    ensures
        argument(name + seq![':'] + token + seq![sign] + tail) == (if trim(name).len() == 0
            || trim(token).len() == 0 {
            Err::<(Seq<char>, ArgumentView), ParseError>(ParseError::MalformedDeclaration)
        } else {
            Ok((seq![sign] + tail, ArgumentView { name: trim(name), taipu: resolve(trim(token)) }))
        }),
{
    let s = name + seq![':'] + token + seq![sign] + tail;
    assert forall|j: int| 0 <= j < name.len() implies #[trigger] s[j] != ':' by {
        assert(s[j] == name[j]);
        assert(name.contains(name[j]));
    }
    assert(s[name.len() as int] == ':');
    lemma_position(s, ':', ':', name.len() as int);
    let after = s.skip(name.len() as int + 1);
    assert(s.take(name.len() as int) =~= name);
    assert(after =~= token + seq![sign] + tail);
    assert forall|j: int| 0 <= j < token.len() implies #[trigger] after[j] != ',' && after[j]
        != ')' by {
        assert(after[j] == token[j]);
        assert(token.contains(token[j]));
    }
    assert(after[token.len() as int] == sign);
    lemma_position(after, ',', ')', token.len() as int);
    assert(after.take(token.len() as int) =~= token);
    assert(after.skip(token.len() as int) =~= seq![sign] + tail);
}

} // verus!
