//! A verified model of the runtime behaviour of the two generated capability
//! implementations: the metadata provider, which writes the summary and the
//! description onto an operation artifact, and the request extractor, which
//! unconditionally succeeds with the companion type's singleton value.

use vstd::prelude::*;

verus! {

/// The companion type's singleton value, as the generated extractor yields
/// it: a zero-field type whose value carries no information.
#[derive(PartialEq, Eq, Structural)]
pub struct Companion;

/// Stands for the generated extractor's failure type. The generated code
/// declares that type uninhabitable, making failure statically impossible;
/// here no function of the library ever produces a value of it.
pub struct Rejection;

/// The fields of the operation artifact that the generated metadata
/// provider writes.
pub struct OperationDoc {
    pub summary: Option<String>,
    pub description: Option<String>,
}

/// What the generated metadata-provider implementation does when invoked:
/// it sets the operation's summary and description to the two split texts.
/// Both fields are always made present, even when the text is empty — an
/// empty summary yields a present-but-empty field, not an absent one.
pub fn apply_operation_doc(operation: &mut OperationDoc, summary: &String, description: &String)
    ensures
        final(operation).summary matches Some(s) && s@ == summary@,
        final(operation).description matches Some(d) && d@ == description@,
{
    operation.summary = Some(summary.clone());
    operation.description = Some(description.clone());
}

/// Law: what the generated request-extractor implementation does when
/// invoked, whatever the incoming request and the ambient state: it never
/// signals failure and yields the companion type's singleton value.
pub fn extract_companion() -> (r: Result<Companion, Rejection>)
    ensures
        r is Ok,
        r == Result::<Companion, Rejection>::Ok(Companion),
{
    Ok(Companion)
}

} // verus!
