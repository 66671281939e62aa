//! The host-side interfaces the generator consumes, held as plain data: the
//! host type description (its name, generics text, fields and escaping mode),
//! and the template loader, a table from template references to resolved
//! paths and source text.
use vstd::prelude::*;

verus! {

use crate::errors::GenError;

/// The escaping mode governing expression output.
#[derive(Clone, Copy, PartialEq, Eq, Structural, Debug)]
pub enum EscapeMode {
    /// Expression values are written as they are.
    Off,
    /// Expression values are wrapped in the HTML markup adaptor unless a
    /// filter already marked them safe.
    Html,
}

/// One named field of the host type, with its type reproduced as text.
pub struct Field {
    pub name: Vec<char>,
    pub ty: Vec<char>,
}

/// The description of the host context type, as the introspection layer
/// hands it over: all syntactic pieces are reproduced verbatim as text.
pub struct TemplateInput {
    /// The host type's name.
    pub ident: Vec<char>,
    /// Generics text placed right after `impl`, e.g. `<'a, T>`; empty when
    /// the host type has no generics.
    pub impl_generics: Vec<char>,
    /// Generics text placed right after the type name.
    pub ty_generics: Vec<char>,
    /// The `where` clause text, possibly empty.
    pub where_clause: Vec<char>,
    /// True iff the host type is a struct with named fields.
    pub named_struct: bool,
    /// The host type's named fields.
    pub fields: Vec<Field>,
    /// The resolved path of the template itself.
    pub path: Vec<char>,
    /// The escaping mode for expression output.
    pub escaping: EscapeMode,
}

/// The first `_parent` field's type text, if any.
pub open spec fn parent_ty(fields: Seq<Field>) -> Option<Vec<char>>
    decreases fields,
{
    if fields.len() == 0 {
        Option::None
    } else if fields[0].name@ == "_parent"@ {
        Option::Some(fields[0].ty)
    } else {
        parent_ty(fields.drop_first())
    }
}

/// Looks up the type of the host's `_parent` field, required when the
/// template extends another. Fails iff the host is not a struct with named
/// fields; yields `None` iff no field is named `_parent`.
pub fn get_parent_type(input: &TemplateInput) -> (r: Result<Option<Vec<char>>, GenError>)
    ensures
        r is Err <==> !input.named_struct,
        r matches Err(e) ==> e == GenError::NotANamedStruct,
        input.named_struct ==> (r matches Ok(o) && (match (o, parent_ty(input.fields@)) {
            (Option::None, Option::None) => true,
            (Option::Some(a), Option::Some(b)) => a@ == b@,
            _ => false,
        })),
{
    if !input.named_struct {
        return Err(GenError::NotANamedStruct);
    }
    let pat = crate::text::chars_of("_parent");
    let mut i: usize = 0;
    proof {
        assert(input.fields@.skip(0) =~= input.fields@);
    }
    while i < input.fields.len()
        invariant
            input.named_struct,
            i <= input.fields@.len(),
            pat@ == "_parent"@,
            parent_ty(input.fields@) == parent_ty(input.fields@.skip(i as int)),
            forall|j: int| 0 <= j < i ==> #[trigger] input.fields@[j].name@ != "_parent"@,
        decreases input.fields@.len() - i,
    {
        proof {
            assert(input.fields@.skip(i as int)[0] == input.fields@[i as int]);
            assert(input.fields@.skip(i as int).drop_first() =~= input.fields@.skip(i + 1));
        }
        if crate::text::chars_eq(&input.fields[i].name, &pat) {
            return Ok(Some(crate::ast::clone_chars(&input.fields[i].ty)));
        }
        i = i + 1;
    }
    proof {
        assert(input.fields@.skip(input.fields@.len() as int) =~= Seq::<Field>::empty());
    }
    Ok(None)
}

/// The template loader's answer table: each entry maps a template reference,
/// as written in a directive, to its resolved path and its source text.
pub struct Loader {
    pub entries: Vec<(Vec<char>, Vec<char>, Vec<char>)>,
}

/// The first entry for `user`, as (resolved path, source).
pub open spec fn loader_find(entries: Seq<(Vec<char>, Vec<char>, Vec<char>)>, user: Seq<char>) -> Option<
    (Vec<char>, Vec<char>),
>
    decreases entries,
{
    if entries.len() == 0 {
        Option::None
    } else if entries[0].0@ == user {
        Option::Some((entries[0].1, entries[0].2))
    } else {
        loader_find(entries.drop_first(), user)
    }
}

impl Loader {
    /// Resolves a template reference to its path and source, by the first
    /// matching entry.
    pub fn get(&self, user: &Vec<char>) -> (r: Option<(Vec<char>, Vec<char>)>)
        ensures
            match (r, loader_find(self.entries@, user@)) {
                (Option::None, Option::None) => true,
                (Option::Some(a), Option::Some(b)) => a.0@ == b.0@ && a.1@ == b.1@,
                _ => false,
            },
    {
        let mut i: usize = 0;
        proof {
            assert(self.entries@.skip(0) =~= self.entries@);
        }
        while i < self.entries.len()
            invariant
                i <= self.entries@.len(),
                loader_find(self.entries@, user@) == loader_find(
                    self.entries@.skip(i as int),
                    user@,
                ),
                forall|j: int| 0 <= j < i ==> #[trigger] self.entries@[j].0@ != user@,
            decreases self.entries@.len() - i,
        {
            proof {
                assert(self.entries@.skip(i as int)[0] == self.entries@[i as int]);
                assert(self.entries@.skip(i as int).drop_first() =~= self.entries@.skip(i + 1));
            }
            if crate::text::chars_eq(&self.entries[i].0, user) {
                let resolved = crate::ast::clone_chars(&self.entries[i].1);
                let source = crate::ast::clone_chars(&self.entries[i].2);
                return Some((resolved, source));
            }
            i = i + 1;
        }
        proof {
            assert(self.entries@.skip(self.entries@.len() as int) =~= Seq::<
                (Vec<char>, Vec<char>, Vec<char>),
            >::empty());
        }
        None
    }

}

} // verus!
