//! Comments on cases.

use vstd::prelude::*;
use vstd::string::StringExecFns;

verus! {

/// A comment on a case.
#[derive(Debug)]
pub struct CaseComment {
    pub id: String,
    pub case_id: String,
    pub comment: String,
    pub created_at: String,
    pub updated_at: String,
}

/// A `CaseComment` in contracts.
pub struct CommentModel {
    pub id: Seq<char>,
    pub case_id: Seq<char>,
    pub comment: Seq<char>,
    pub created_at: Seq<char>,
    pub updated_at: Seq<char>,
}

impl View for CaseComment {
    type V = CommentModel;

    open spec fn view(&self) -> CommentModel {
        CommentModel {
            id: self.id@,
            case_id: self.case_id@,
            comment: self.comment@,
            created_at: self.created_at@,
            updated_at: self.updated_at@,
        }
    }
}

/// Why a comment request was turned down.
#[derive(Debug)]
pub enum CaseCommentError {
    DatabaseError(String),
    ValidationError(String),
}

/// A `CaseCommentError` in contracts.
pub enum CommentFailure {
    DatabaseError(Seq<char>),
    ValidationError(Seq<char>),
}

impl View for CaseCommentError {
    type V = CommentFailure;

    open spec fn view(&self) -> CommentFailure {
        match self {
            CaseCommentError::DatabaseError(m) => CommentFailure::DatabaseError(m@),
            CaseCommentError::ValidationError(m) => CommentFailure::ValidationError(m@),
        }
    }
}

/// The sentence that describes a failure.
pub open spec fn comment_failure_text(e: CommentFailure) -> Seq<char> {
    match e {
        CommentFailure::DatabaseError(m) => "Database error: "@ + m,
        CommentFailure::ValidationError(m) => "Validation error: "@ + m,
    }
}

impl CaseCommentError {
    /// The sentence that describes this failure.
    pub fn message(&self) -> (r: String)
        ensures
            r@ == comment_failure_text(self@),
    {
        match self {
            CaseCommentError::DatabaseError(m) => String::from_str("Database error: ").concat(
                m.as_str(),
            ),
            CaseCommentError::ValidationError(m) => String::from_str("Validation error: ").concat(
                m.as_str(),
            ),
        }
    }
}

/// What writing a comment gives: the comment under the given identifier,
/// created and updated at the given time, or a refusal where the text is empty.
pub open spec fn commented(case: Seq<char>, text: Seq<char>, id: Seq<char>, now: Seq<char>) -> Result<
    CommentModel,
    CommentFailure,
> {
    if text.len() == 0 {
        Err(CommentFailure::ValidationError("Comment cannot be empty"@))
    } else {
        Ok(CommentModel { id: id, case_id: case, comment: text, created_at: now, updated_at: now })
    }
}

/// What changing a comment gives: the comment with its new text, updated
/// at the given time, or a refusal where the text is empty.
pub open spec fn recommented(c: CommentModel, now: Seq<char>) -> Result<
    CommentModel,
    CommentFailure,
> {
    if c.comment.len() == 0 {
        Err(CommentFailure::ValidationError("Comment cannot be empty"@))
    } else {
        Ok(CommentModel { updated_at: now, ..c })
    }
}

impl CaseComment {
    /// The empty comment under the given identifier, created at the given time.
    pub fn blank(id: String, now: String) -> (c: CaseComment)
        ensures
            c@ == (CommentModel {
                id: id@,
                case_id: Seq::empty(),
                comment: Seq::empty(),
                created_at: now@,
                updated_at: now@,
            }),
    {
        CaseComment {
            id,
            case_id: String::new(),
            comment: String::new(),
            created_at: now.clone(),
            updated_at: now,
        }
    }
}

impl Default for CaseComment {
    /// The empty comment under a fresh identifier, created now.
    fn default() -> (c: CaseComment)
        ensures
            c.case_id@.len() == 0,
            c.comment@.len() == 0,
            c.updated_at@ == c.created_at@,
    {
        CaseComment::blank(crate::stamp::fresh_id(), crate::stamp::now_rfc3339())
    }
}

/// Writes a comment on a case under the given identifier at the given time.
pub fn create_comment_with(case_id: &str, comment_text: &str, id: String, now: String) -> (r: Result<
    CaseComment,
    CaseCommentError,
>)
    ensures
        match r {
            Ok(c) => commented(case_id@, comment_text@, id@, now@) == Ok::<
                CommentModel,
                CommentFailure,
            >(c@),
            Err(e) => commented(case_id@, comment_text@, id@, now@) == Err::<
                CommentModel,
                CommentFailure,
            >(e@),
        },
{
    if comment_text.is_empty() {
        return Err(CaseCommentError::ValidationError(String::from_str("Comment cannot be empty")));
    }
    Ok(
        CaseComment {
            id,
            case_id: String::from_str(case_id),
            comment: String::from_str(comment_text),
            created_at: now.clone(),
            updated_at: now,
        },
    )
}

/// Writes a comment on a case under a fresh identifier, now.
pub fn create_comment(case_id: &str, comment_text: &str) -> (r: Result<
    CaseComment,
    CaseCommentError,
>)
    ensures
        match r {
            Ok(c) => commented(case_id@, comment_text@, c.id@, c.created_at@) == Ok::<
                CommentModel,
                CommentFailure,
            >(c@),
            Err(e) => comment_text@.len() == 0 && e@ == CommentFailure::ValidationError(
                "Comment cannot be empty"@,
            ),
        },
{
    create_comment_with(
        case_id,
        comment_text,
        crate::stamp::fresh_id(),
        crate::stamp::now_rfc3339(),
    )
}

/// Changes a comment at the given time.
pub fn update_comment_at(comment: &CaseComment, now: String) -> (r: Result<
    CaseComment,
    CaseCommentError,
>)
    ensures
        match r {
            Ok(c) => recommented(comment@, now@) == Ok::<CommentModel, CommentFailure>(c@),
            Err(e) => recommented(comment@, now@) == Err::<CommentModel, CommentFailure>(e@),
        },
{
    if comment.comment.as_str().is_empty() {
        return Err(CaseCommentError::ValidationError(String::from_str("Comment cannot be empty")));
    }
    Ok(
        CaseComment {
            id: comment.id.clone(),
            case_id: comment.case_id.clone(),
            comment: comment.comment.clone(),
            created_at: comment.created_at.clone(),
            updated_at: now,
        },
    )
}

} // verus!
