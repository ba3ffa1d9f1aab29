//! The logical schema as plain values, and the structural equality
//! check a rewrite must pass: the output schema must equal the input
//! schema exactly.

use vstd::prelude::*;

verus! {

/// One field of a decoded logical schema: its name, a canonical
/// rendering of its value type, and its nullability.
#[derive(Debug)]
pub struct SchemaFieldModel {
    pub name: String,
    pub type_text: String,
    pub nullable: bool,
}

/// Two schemas differ; `index` is the first differing position, or the
/// length of the shorter schema when one is a prefix of the other.
#[derive(Debug)]
pub struct SchemaMismatch {
    pub index: usize,
}

impl SchemaMismatch {
    /// A one-line description of the mismatch.
    pub fn text(&self) -> (r: String)
    {
        let mut s = "schema changed after rewrite, near field ".to_owned();
        s.append(crate::strutil::usize_to_string(self.index).as_str());
        s
    }
}

/// Field-wise structural equality of two schemas.
pub open spec fn spec_fields_eq(a: Seq<SchemaFieldModel>, b: Seq<SchemaFieldModel>) -> bool {
    a.len() == b.len() && forall|i: int|
        0 <= i < a.len() ==> (#[trigger] a[i]).name@ == b[i].name@ && a[i].type_text@
            == b[i].type_text@ && a[i].nullable == b[i].nullable
}

/// Checks that a rewrite preserved the logical schema: every field's
/// name, type and nullability, in order.  This is a hard invariant of
/// rewriting, not a warning.
pub fn validate_schema_match(original: &Vec<SchemaFieldModel>, rewritten: &Vec<SchemaFieldModel>) -> (r: Result<(), SchemaMismatch>)
    ensures
        r is Ok <==> spec_fields_eq(original@, rewritten@),
{
    if original.len() != rewritten.len() {
        let shorter = if original.len() <= rewritten.len() {
            original.len()
        } else {
            rewritten.len()
        };
        return Err(SchemaMismatch { index: shorter });
    }
    let mut i: usize = 0;
    while i < original.len()
        invariant
            0 <= i <= original@.len(),
            original@.len() == rewritten@.len(),
            forall|k: int|
                0 <= k < i ==> (#[trigger] original@[k]).name@ == rewritten@[k].name@
                    && original@[k].type_text@ == rewritten@[k].type_text@ && original@[k].nullable
                    == rewritten@[k].nullable,
        decreases original@.len() - i,
    {
        let a = &original[i];
        let b = &rewritten[i];
        if !crate::strutil::str_eq(a.name.as_str(), b.name.as_str()) || !crate::strutil::str_eq(
            a.type_text.as_str(),
            b.type_text.as_str(),
        ) || a.nullable != b.nullable {
            return Err(SchemaMismatch { index: i });
        }
        i += 1;
    }
    Ok(())
}

} // verus!
