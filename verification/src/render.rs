//! The records as text for a reader.

use crate::parser::{
    views_of_arguments, Argument, ArgumentView, Function, FunctionView, Type, TypeView,
};
use vstd::prelude::*;
use vstd::string::StringExecFns;

verus! {

impl TypeView {
    /// The type as it is written: a built-in kind by its keyword, a custom
    /// type by its name.
    pub open spec fn text(self) -> Seq<char> {
        match self {
            TypeView::Boolean => "boolean"@,
            TypeView::Number => "number"@,
            TypeView::String => "string"@,
            TypeView::Array => "array"@,
            TypeView::Tuple => "tuple"@,
            TypeView::Enum => "enum"@,
            TypeView::Any => "any"@,
            TypeView::Void => "void"@,
            TypeView::Null => "null"@,
            TypeView::Undefined => "undefined"@,
            TypeView::Never => "never"@,
            TypeView::Object => "object"@,
            TypeView::Custom(name) => name,
        }
    }
}

impl ArgumentView {
    /// The sentence that names the argument and its type.
    pub open spec fn text(self) -> Seq<char> {
        "Argument "@ + self.name + " of type "@ + self.taipu.text() + "!"@
    }
}

/// The sentences of `args`, each followed by a line feed.
pub open spec fn lines(args: Seq<ArgumentView>) -> Seq<char>
    decreases args.len(),
{
    if args.len() == 0 {
        Seq::empty()
    } else {
        lines(args.drop_last()) + args.last().text() + "\n"@
    }
}

impl FunctionView {
    /// The sentence that names the function, its arguments and what it
    /// returns.
    pub open spec fn text(self) -> Seq<char> {
        "Function "@ + self.name + " with args "@ + lines(self.args) + " returns a "@
            + self.return_type.text() + "!!"@
    }
}

impl Type {
    /// The type as it is written.
    pub fn to_string(&self) -> (r: String)
        ensures
            r@ == self@.text(),
    {
        match self {
            Type::Boolean => String::from_str("boolean"),
            Type::Number => String::from_str("number"),
            Type::String => String::from_str("string"),
            Type::Array => String::from_str("array"),
            Type::Tuple => String::from_str("tuple"),
            Type::Enum => String::from_str("enum"),
            Type::Any => String::from_str("any"),
            Type::Void => String::from_str("void"),
            Type::Null => String::from_str("null"),
            Type::Undefined => String::from_str("undefined"),
            Type::Never => String::from_str("never"),
            Type::Object => String::from_str("object"),
            Type::Custom(name) => name.clone(),
        }
    }
}

impl Argument {
    /// The sentence that names the argument and its type.
    pub fn to_string(&self) -> (r: String)
        ensures
            r@ == self@.text(),
    {
        let mut r = String::from_str("Argument ");
        r.append(self.name.as_str());
        r.append(" of type ");
        r.append(self.taipu.to_string().as_str());
        r.append("!");
        r
    }
}

impl Function {
    /// The sentence that names the function, its arguments one to a line, and
    /// what it returns.
    pub fn to_string(&self) -> (r: String)
        ensures
            r@ == self@.text(),
    {
        let mut r = String::from_str("Function ");
        r.append(self.name.as_str());
        r.append(" with args ");
        let ghost head = r@;
        let ghost args = views_of_arguments(self.args@);
        let mut i: usize = 0;
        proof {
            assert(r@ =~= head + lines(args.take(0)));
        }
        while i < self.args.len()
            invariant
                i <= self.args.len(),
                args == views_of_arguments(self.args@),
                r@ == head + lines(args.take(i as int)),
            decreases self.args.len() - i,
        {
            let ghost so_far = r@;
            r.append(self.args[i].to_string().as_str());
            r.append("\n");
            proof {
                let next = args.take(i + 1);
                assert(next.drop_last() =~= args.take(i as int));
                assert(next.last() == self.args@[i as int]@);
                assert(r@ =~= head + lines(next));
            }
            i = i + 1;
        }
        proof {
            assert(args.take(i as int) =~= args);
        }
        r.append(" returns a ");
        r.append(self.return_type.to_string().as_str());
        r.append("!!");
        r
    }
}

} // verus!
