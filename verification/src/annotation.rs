use vstd::prelude::*;
use vstd::std_specs::cmp::PartialEqSpecImpl;
use crate::span::Span;
use crate::text::Text;

verus! {

/// A name as written in the source, with the place it was written.
#[derive(Debug)]
pub struct Identifier {
    pub name: Text,
    pub span: Span,
}

/// A marker attached to a function or circuit: a name and its arguments.
#[derive(Debug)]
pub struct Annotation {
    pub span: Span,
    pub name: Identifier,
    pub arguments: Vec<Text>,
}

/// Whether two identifiers hold the same name and stand at the same place.
pub open spec fn same_identifier(a: Identifier, b: Identifier) -> bool {
    a.name@ == b.name@ && a.span == b.span
}

/// Whether two lists hold texts of the same characters, place by place.
pub open spec fn same_texts(a: Seq<Text>, b: Seq<Text>) -> bool {
    a.len() == b.len() && forall|i: int| 0 <= i < a.len() ==> (#[trigger] a[i])@ == b[i]@
}

/// Whether two annotations hold the same data.
pub open spec fn same_annotation(a: Annotation, b: Annotation) -> bool {
    a.span == b.span && same_identifier(a.name, b.name) && same_texts(a.arguments@, b.arguments@)
}

impl Clone for Identifier {
    /// An identifier of the same name at the same place.
    fn clone(&self) -> (r: Identifier)
        ensures
            same_identifier(r, *self),
    {
        Identifier { name: self.name.clone(), span: self.span }
    }
}

impl PartialEq for Identifier {
    /// Identifiers are equal when name and place are.
    fn eq(&self, other: &Identifier) -> (r: bool) {
        self.name == other.name && self.span == other.span
    }
}

impl PartialEqSpecImpl for Identifier {
    open spec fn obeys_eq_spec() -> bool {
        true
    }

    open spec fn eq_spec(&self, other: &Identifier) -> bool {
        same_identifier(*self, *other)
    }
}

impl Eq for Identifier {

}

impl Clone for Annotation {
    /// An annotation that holds the same data.
    fn clone(&self) -> (r: Annotation)
        ensures
            same_annotation(r, *self),
    {
        let mut arguments: Vec<Text> = Vec::new();
        let mut i: usize = 0;
        while i < self.arguments.len()
            invariant
                i <= self.arguments.len(),
                arguments@.len() == i,
                forall|j: int| 0 <= j < i ==> (#[trigger] arguments@[j])@ == self.arguments@[j]@,
            decreases self.arguments.len() - i,
        {
            arguments.push(self.arguments[i].clone());
            i += 1;
        }
        Annotation { span: self.span, name: self.name.clone(), arguments }
    }
}

impl PartialEq for Annotation {
    /// Annotations are equal when place, name and arguments are.
    fn eq(&self, other: &Annotation) -> (r: bool) {
        if !(self.span == other.span && self.name == other.name && self.arguments.len()
            == other.arguments.len()) {
            return false;
        }
        let mut i: usize = 0;
        while i < self.arguments.len()
            invariant
                i <= self.arguments.len(),
                self.arguments.len() == other.arguments.len(),
                forall|j: int|
                    0 <= j < i ==> (#[trigger] self.arguments@[j])@ == other.arguments@[j]@,
            decreases self.arguments.len() - i,
        {
            if !(self.arguments[i] == other.arguments[i]) {
                return false;
            }
            i += 1;
        }
        true
    }
}

impl PartialEqSpecImpl for Annotation {
    open spec fn obeys_eq_spec() -> bool {
        true
    }

    open spec fn eq_spec(&self, other: &Annotation) -> bool {
        same_annotation(*self, *other)
    }
}

impl Eq for Annotation {

}

/// The names of the annotations meant for users.
pub open spec fn is_external_name(name: Seq<char>) -> bool {
    name == "test"@
}

/// The names of the annotations that direct the compiler.
pub open spec fn is_internal_name(name: Seq<char>) -> bool {
    name == "AlwaysConst"@ || name == "CoreFunction"@
}

/// The first `n` arguments as they are written out, a comma after each.
pub open spec fn arguments_text(arguments: Seq<Text>, n: nat) -> Seq<char>
    decreases n,
{
    if n == 0 || n > arguments.len() {
        Seq::empty()
    } else {
        arguments_text(arguments, (n - 1) as nat) + arguments[n - 1]@ + ","@
    }
}

/// Whether some annotation of the list carries the name.
pub open spec fn has_annotation(annotations: Seq<Annotation>, name: Seq<char>) -> bool {
    exists|i: int| 0 <= i < annotations.len() && (#[trigger] annotations[i]).name.name@ == name
}

/// Looks through the list for an annotation of the given name.
pub fn contains_annotation(annotations: &Vec<Annotation>, name: &str) -> (r: bool)
    ensures
        r == has_annotation(annotations@, name@),
{
    let mut i: usize = 0;
    while i < annotations.len()
        invariant
            i <= annotations.len(),
            forall|j: int| 0 <= j < i ==> (#[trigger] annotations@[j]).name.name@ != name@,
        decreases annotations.len() - i,
    {
        if annotations[i].name.name.is(name) {
            return true;
        }
        i += 1;
    }
    false
}

impl Annotation {
    /// The annotation as it is written in source: `@name(a,b,)`.
    pub open spec fn text(self) -> Seq<char> {
        "@"@ + self.name.name@ + "("@ + arguments_text(self.arguments@, self.arguments@.len())
            + ")"@
    }

    /// An annotation is valid when its name is one the compiler knows.
    pub fn is_valid_annotation(&self) -> (r: bool)
        ensures
            r == (is_external_name(self.name.name@) || is_internal_name(self.name.name@)),
    {
        self.is_external_annotation() || self.is_internal_annotation()
    }

    /// Whether the annotation is one meant for users.
    pub fn is_external_annotation(&self) -> (r: bool)
        ensures
            r == is_external_name(self.name.name@),
    {
        self.name.name.is("test")
    }

    /// Whether the annotation is one that directs the compiler.
    pub fn is_internal_annotation(&self) -> (r: bool)
        ensures
            r == is_internal_name(self.name.name@),
    {
        self.name.name.is("AlwaysConst") || self.name.name.is("CoreFunction")
    }

    /// Writes the annotation out as in source.
    pub fn to_string(&self) -> (r: String)
        ensures
            r@ == self.text(),
    {
        let mut out = String::from_str("@");
        let name = self.name.name.to_string();
        out.append(name.as_str());
        out.append("(");
        let ghost head = out@;
        let mut i: usize = 0;
        while i < self.arguments.len()
            invariant
                i <= self.arguments.len(),
                out@ == head + arguments_text(self.arguments@, i as nat),
            decreases self.arguments.len() - i,
        {
            let argument = self.arguments[i].to_string();
            out.append(argument.as_str());
            out.append(",");
            i += 1;
        }
        out.append(")");
        out
    }
}

} // verus!
