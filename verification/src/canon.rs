//! The plain way to write a function down as a declaration, and the proof
//! that a declaration written so reads back as that function.

use crate::grammar::{
    argument, argument_list, arguments, declarations, function, keyword, lemma_argument_reads,
    resolve, return_type, signature,
};
use crate::parser::{is_token, ArgumentView, FunctionView, ParseError, TypeView};
use crate::text::{
    is_whitespace, lemma_leading_whitespace, lemma_position, lemma_trailing_whitespace, trim,
    trim_start,
};
use vstd::prelude::*;

verus! {

/// The signs of the grammar.
pub open spec fn is_sign(c: char) -> bool {
    c == '(' || c == ')' || c == ',' || c == ':' || c == ';'
}

/// Tells whether `s` is all whitespace.
pub open spec fn is_blank(s: Seq<char>) -> bool {
    forall|i: int| 0 <= i < s.len() ==> is_whitespace(#[trigger] s[i])
}

/// Tells whether `s` can stand for a name or a type in a declaration: a
/// token that holds no sign of the grammar.
pub open spec fn is_plain(s: Seq<char>) -> bool {
    is_token(s) && forall|i: int| 0 <= i < s.len() ==> !is_sign(#[trigger] s[i])
}

impl TypeView {
    /// Tells whether the type can be written down and read again: its text is
    /// plain, and names it.
    pub open spec fn writable(self) -> bool {
        is_plain(self.text()) && resolve(self.text()) == self
    }
}

impl ArgumentView {
    /// Tells whether the argument can be written down and read again.
    pub open spec fn writable(self) -> bool {
        is_plain(self.name) && self.taipu.writable()
    }

    /// The argument as it is declared: its name, `: `, its type.
    pub open spec fn declared(self) -> Seq<char> {
        self.name + seq![':', ' '] + self.taipu.text()
    }
}

/// The arguments as they are declared, with `, ` between each two.
pub open spec fn declared_arguments(args: Seq<ArgumentView>) -> Seq<char>
    decreases args.len(),
{
    if args.len() == 0 {
        Seq::empty()
    } else if args.len() == 1 {
        args[0].declared()
    } else {
        args[0].declared() + seq![',', ' '] + declared_arguments(args.drop_first())
    }
}

impl FunctionView {
    /// Tells whether the function can be written down and read again.
    pub open spec fn writable(self) -> bool {
        &&& is_plain(self.name)
        &&& forall|i: int| 0 <= i < self.args.len() ==> (#[trigger] self.args[i]).writable()
        &&& self.return_type.writable()
    }

    /// The function as it is declared on one line.
    pub open spec fn declared(self) -> Seq<char> {
        "export"@ + seq![' '] + "function"@ + seq![' '] + self.name + seq!['(']
            + declared_arguments(self.args) + seq![')', ':', ' '] + self.return_type.text()
            + seq![';']
    }
}

/// The functions as they are declared, each on a line of its own.
pub open spec fn declared_file(functions: Seq<FunctionView>) -> Seq<char>
    decreases functions.len(),
{
    if functions.len() == 0 {
        Seq::empty()
    } else if functions.len() == 1 {
        functions[0].declared()
    } else {
        functions[0].declared() + seq!['\n'] + declared_file(functions.drop_first())
    }
}

/// Trimming a token with whitespace before and behind it gives the token.
pub proof fn lemma_trim_padded(lead: Seq<char>, token: Seq<char>, trail: Seq<char>)
    requires
        is_blank(lead),
        is_token(token),
        is_blank(trail),
    ensures
        trim(lead + token + trail) == token,
{
    let s = lead + token + trail;
    assert forall|j: int| 0 <= j < lead.len() implies is_whitespace(#[trigger] s[j]) by {
        assert(s[j] == lead[j]);
    }
    assert(s[lead.len() as int] == token[0]);
    lemma_leading_whitespace(s, lead.len() as int);
    let t = trim_start(s);
    assert(t =~= token + trail);
    assert forall|j: int| t.len() - trail.len() <= j < t.len() implies is_whitespace(
        #[trigger] t[j],
    ) by {
        assert(t[j] == trail[j - token.len()]);
    }
    assert(t[t.len() - trail.len() - 1] == token.last());
    lemma_trailing_whitespace(t, trail.len() as int);
    assert(t.take(t.len() - trail.len()) =~= token);
}

/// Whitespace, then a word, then whitespace again read as that keyword, and
/// leave what stands behind the word.
pub proof fn lemma_keyword_reads(lead: Seq<char>, word: Seq<char>, next: Seq<char>)
    requires
        is_blank(lead),
        word.len() > 0 && !is_whitespace(word[0]),
        next.len() > 0 && is_whitespace(next[0]),
    ensures
        keyword(lead + word + next, word) == Ok::<Seq<char>, ParseError>(next),
{
    let s = lead + word + next;
    assert forall|j: int| 0 <= j < lead.len() implies is_whitespace(#[trigger] s[j]) by {
        assert(s[j] == lead[j]);
    }
    assert(s[lead.len() as int] == word[0]);
    lemma_leading_whitespace(s, lead.len() as int);
    let t = trim_start(s);
    assert(t =~= word + next);
    assert(t.subrange(0, word.len() as int) =~= word);
    assert(t[word.len() as int] == next[0]);
    assert(t.skip(word.len() as int) =~= next);
}

/// A type's text and a `;` read as that type, and leave the `;`.
pub proof fn lemma_return_type_reads(lead: Seq<char>, returned: TypeView, tail: Seq<char>)
    requires
        is_blank(lead),
        returned.writable(),
    ensures
        return_type(lead + returned.text() + seq![';'] + tail) == Ok::<
            (Seq<char>, TypeView),
            ParseError,
        >((seq![';'] + tail, returned)),
{
    let token = lead + returned.text();
    let s = token + seq![';'] + tail;
    assert forall|j: int| 0 <= j < token.len() implies #[trigger] s[j] != ';' by {
        assert(s[j] == token[j]);
        if j >= lead.len() {
            assert(token[j] == returned.text()[j - lead.len()]);
        } else {
            assert(token[j] == lead[j]);
        }
    }
    assert(s[token.len() as int] == ';');
    lemma_position(s, ';', ';', token.len() as int);
    assert(s.take(token.len() as int) =~= token);
    assert(s.skip(token.len() as int) =~= seq![';'] + tail);
    assert(token =~= lead + returned.text() + Seq::<char>::empty());
    lemma_trim_padded(lead, returned.text(), Seq::empty());
}

/// An argument as it is declared, with a `,` or a `)` behind it, reads as
/// that argument and leaves the sign.
pub proof fn lemma_declared_argument_reads(
    lead: Seq<char>,
    arg: ArgumentView,
    sign: char,
    tail: Seq<char>,
)
    requires
        is_blank(lead),
        arg.writable(),
        sign == ',' || sign == ')',
    ensures
        argument(lead + arg.declared() + seq![sign] + tail) == Ok::<
            (Seq<char>, ArgumentView),
            ParseError,
        >((seq![sign] + tail, arg)),
{
    let name = lead + arg.name;
    let token = seq![' '] + arg.taipu.text();
    assert(!name.contains(':')) by {
        if name.contains(':') {
            let i = choose|i: int| 0 <= i < name.len() && name[i] == ':';
            if i >= lead.len() {
                assert(name[i] == arg.name[i - lead.len()]);
            } else {
                assert(name[i] == lead[i]);
            }
        }
    }
    assert(!token.contains(',') && !token.contains(')')) by {
        if token.contains(',') {
            let i = choose|i: int| 0 <= i < token.len() && token[i] == ',';
            if i > 0 {
                assert(token[i] == arg.taipu.text()[i - 1]);
            }
        }
        if token.contains(')') {
            let i = choose|i: int| 0 <= i < token.len() && token[i] == ')';
            if i > 0 {
                assert(token[i] == arg.taipu.text()[i - 1]);
            }
        }
    }
    lemma_argument_reads(name, token, sign, tail);
    assert(name + seq![':'] + token + seq![sign] + tail =~= lead + arg.declared() + seq![sign]
        + tail);
    assert(name =~= lead + arg.name + Seq::<char>::empty());
    lemma_trim_padded(lead, arg.name, Seq::empty());
    assert(token =~= seq![' '] + arg.taipu.text() + Seq::<char>::empty());
    lemma_trim_padded(seq![' '], arg.taipu.text(), Seq::empty());
}

/// One argument or more as they are declared, with a `)` behind them, read
/// as those arguments in that order.
pub proof fn lemma_declared_arguments_read(
    lead: Seq<char>,
    args: Seq<ArgumentView>,
    tail: Seq<char>,
)
    requires
        is_blank(lead),
        args.len() > 0,
        forall|i: int| 0 <= i < args.len() ==> (#[trigger] args[i]).writable(),
    ensures
        arguments(lead + declared_arguments(args) + seq![')'] + tail) == Ok::<
            (Seq<char>, Seq<ArgumentView>),
            ParseError,
        >((tail, args)),
    decreases args.len(),
{
    let s = lead + declared_arguments(args) + seq![')'] + tail;
    let first = args[0];
    if args.len() == 1 {
        lemma_declared_argument_reads(lead, first, ')', tail);
        assert((seq![')'] + tail).skip(1) =~= tail);
        assert(seq![first] =~= args);
    } else {
        let others = args.drop_first();
        let behind = seq![' '] + declared_arguments(others) + seq![')'] + tail;
        lemma_declared_argument_reads(lead, first, ',', behind);
        assert(lead + first.declared() + seq![','] + behind =~= s);
        assert((seq![','] + behind).skip(1) =~= behind);
        assert forall|i: int| 0 <= i < others.len() implies (#[trigger] others[i]).writable() by {
            assert(others[i] == args[i + 1]);
        }
        lemma_declared_arguments_read(seq![' '], others, tail);
        assert(seq![first] + others =~= args);
    }
}

/// The arguments as they are declared, in their parentheses, read as those
/// arguments in that order.
pub proof fn lemma_declared_list_reads(args: Seq<ArgumentView>, tail: Seq<char>)
    requires
        forall|i: int| 0 <= i < args.len() ==> (#[trigger] args[i]).writable(),
    ensures
        argument_list(seq!['('] + declared_arguments(args) + seq![')'] + tail) == Ok::<
            (Seq<char>, Seq<ArgumentView>),
            ParseError,
        >((tail, args)),
{
    let s = seq!['('] + declared_arguments(args) + seq![')'] + tail;
    if args.len() == 0 {
        assert(s[1] == ')');
        assert(s.skip(2) =~= tail);
        assert(args =~= Seq::<ArgumentView>::empty());
    } else {
        assert(args[0].writable());
        assert(declared_arguments(args)[0] == args[0].name[0]);
        assert(s[1] == args[0].name[0]);
        assert(!is_sign(args[0].name[0]));
        assert(s.skip(1) =~= Seq::<char>::empty() + declared_arguments(args) + seq![')'] + tail);
        lemma_declared_arguments_read(Seq::empty(), args, tail);
    }
}

/// What stands behind the keywords of a declaration as it is declared reads
/// as the function.
pub proof fn lemma_declared_signature_reads(f: FunctionView, tail: Seq<char>)
    requires
        f.writable(),
    ensures
        signature(
            seq![' '] + f.name + seq!['('] + declared_arguments(f.args) + seq![')', ':', ' ']
                + f.return_type.text() + seq![';'] + tail,
        ) == Ok::<(Seq<char>, FunctionView), ParseError>((tail, f)),
{
    let padded = seq![' '] + f.name;
    let behind_list = seq![':', ' '] + f.return_type.text() + seq![';'] + tail;
    let list = seq!['('] + declared_arguments(f.args) + seq![')'] + behind_list;
    let s = seq![' '] + f.name + seq!['('] + declared_arguments(f.args) + seq![')', ':', ' ']
        + f.return_type.text() + seq![';'] + tail;
    assert(s =~= padded + list);
    assert forall|j: int| 0 <= j < padded.len() implies #[trigger] s[j] != '(' by {
        if j > 0 {
            assert(s[j] == f.name[j - 1]);
        }
    }
    assert(s[padded.len() as int] == '(');
    lemma_position(s, '(', '(', padded.len() as int);
    assert(s.take(padded.len() as int) =~= seq![' '] + f.name + Seq::<char>::empty());
    lemma_trim_padded(seq![' '], f.name, Seq::empty());
    assert(s.skip(padded.len() as int) =~= list);
    lemma_declared_list_reads(f.args, behind_list);
    assert(behind_list[0] == ':');
    lemma_leading_whitespace(behind_list, 0);
    assert(trim_start(behind_list) =~= behind_list);
    assert(behind_list.skip(1) =~= seq![' '] + f.return_type.text() + seq![';'] + tail);
    lemma_return_type_reads(seq![' '], f.return_type, tail);
    assert((seq![';'] + tail).skip(1) =~= tail);
}

/// A function that can be written down, declared behind whitespace or none,
/// reads as that function, and what stands behind the declaration is left.
pub proof fn lemma_declared_function_reads(lead: Seq<char>, f: FunctionView, tail: Seq<char>)
    requires
        is_blank(lead),
        f.writable(),
    ensures
        function(lead + f.declared() + tail) == Ok::<(Seq<char>, FunctionView), ParseError>(
            (tail, f),
        ),
{
    reveal_strlit("export");
    reveal_strlit("function");
    let behind = seq![' '] + f.name + seq!['('] + declared_arguments(f.args) + seq![')', ':', ' ']
        + f.return_type.text() + seq![';'] + tail;
    let s = lead + f.declared() + tail;
    assert("export"@.len() == 6 && "export"@[0] == 'e');
    assert("function"@.len() == 8 && "function"@[0] == 'f');
    let after_export = seq![' '] + "function"@ + behind;
    assert(s =~= lead + "export"@ + after_export);
    lemma_keyword_reads(lead, "export"@, after_export);
    lemma_keyword_reads(seq![' '], "function"@, behind);
    lemma_declared_signature_reads(f, tail);
}

/// One function or more that can be written down, declared each on a line of
/// its own, read as those functions in that order; what stands behind the
/// last of them is read on as it would be alone.
pub proof fn lemma_declared_file_reads(
    lead: Seq<char>,
    functions: Seq<FunctionView>,
    tail: Seq<char>,
)
    requires
        is_blank(lead),
        functions.len() > 0,
        forall|i: int| 0 <= i < functions.len() ==> (#[trigger] functions[i]).writable(),
    ensures
        declarations(lead + declared_file(functions) + tail) == (
            declarations(tail).0,
            functions + declarations(tail).1,
        ),
    decreases functions.len(),
{
    let first = functions[0];
    let s = lead + declared_file(functions) + tail;
    if functions.len() == 1 {
        lemma_declared_function_reads(lead, first, tail);
        assert(seq![first] + declarations(tail).1 =~= functions + declarations(tail).1);
    } else {
        let others = functions.drop_first();
        let behind = seq!['\n'] + declared_file(others) + tail;
        assert(s =~= lead + first.declared() + behind);
        lemma_declared_function_reads(lead, first, behind);
        assert forall|i: int| 0 <= i < others.len() implies (#[trigger] others[i]).writable() by {
            assert(others[i] == functions[i + 1]);
        }
        lemma_declared_file_reads(seq!['\n'], others, tail);
        assert(seq![first] + (others + declarations(tail).1) =~= functions + declarations(tail).1);
    }
}

} // verus!
