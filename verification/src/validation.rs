//! Bounds-checks and sanitization for every inbound string before it reaches
//! the store. Each validator returns a specific error kind, never a generic
//! failure. Lengths are counted in characters.

use crate::errors::{BBError, BBResult, InvalidReason, TraversalReason};
use crate::text::{exec_is_control_char, exec_is_space_char, is_control_char, is_space_char};
use vstd::prelude::*;

verus! {

pub const MAX_AGENT_ID_LEN: usize = 64;

pub const MAX_TASK_LEN: usize = 256;

pub const MAX_BLOCKERS_LEN: usize = 1024;

pub const MAX_MESSAGE_CONTENT_LEN: usize = 65536;

pub const MAX_ARTIFACT_PATH_LEN: usize = 4096;

pub const MAX_ARTIFACT_DESC_LEN: usize = 1024;

pub const MAX_VERSION_LEN: usize = 64;

pub const MAX_TAG_LEN: usize = 32;

pub const MAX_TAGS_PER_MESSAGE: usize = 10;

pub const MAX_REFS_PER_ENTITY: usize = 20;

/// Whether `s` holds a control character anywhere.
pub open spec fn has_control_char(s: Seq<char>) -> bool {
    exists|i: int| 0 <= i < s.len() && is_control_char(#[trigger] s[i])
}

/// Whether `s` holds a control or white-space character anywhere.
pub open spec fn has_control_or_space_char(s: Seq<char>) -> bool {
    exists|i: int|
        0 <= i < s.len() && (is_control_char(#[trigger] s[i]) || is_space_char(s[i]))
}

fn scan_control(s: &str) -> (r: bool)
    ensures
        r == has_control_char(s@),
{
    let len = s.unicode_len();
    let mut i: usize = 0;
    while i < len
        invariant
            i <= len,
            len == s@.len(),
            forall|j: int| 0 <= j < i ==> !is_control_char(#[trigger] s@[j]),
        decreases len - i,
    {
        if exec_is_control_char(s.get_char(i)) {
            return true;
        }
        i = i + 1;
    }
    false
}

fn scan_control_or_space(s: &str) -> (r: bool)
    ensures
        r == has_control_or_space_char(s@),
{
    let len = s.unicode_len();
    let mut i: usize = 0;
    while i < len
        invariant
            i <= len,
            len == s@.len(),
            forall|j: int|
                0 <= j < i ==> !is_control_char(#[trigger] s@[j]) && !is_space_char(s@[j]),
        decreases len - i,
    {
        let c = s.get_char(i);
        if exec_is_control_char(c) || exec_is_space_char(c) {
            return true;
        }
        i = i + 1;
    }
    false
}

/// What validating an agent id yields: nonempty, bounded, no control characters.
pub open spec fn validate_agent_id_spec(s: Seq<char>) -> BBResult<()> {
    if s.len() == 0 {
        Err(BBError::InvalidInput(InvalidReason::AgentIdEmpty))
    } else if s.len() > MAX_AGENT_ID_LEN {
        Err(BBError::InvalidInput(InvalidReason::AgentIdTooLong))
    } else if has_control_char(s) {
        Err(BBError::InvalidInput(InvalidReason::AgentIdControlChars))
    } else {
        Ok(())
    }
}

pub fn validate_agent_id(id: &str) -> (r: BBResult<()>)
    ensures
        r == validate_agent_id_spec(id@),
{
    let len = id.unicode_len();
    if len == 0 {
        Err(BBError::InvalidInput(InvalidReason::AgentIdEmpty))
    } else if len > MAX_AGENT_ID_LEN {
        Err(BBError::InvalidInput(InvalidReason::AgentIdTooLong))
    } else if scan_control(id) {
        Err(BBError::InvalidInput(InvalidReason::AgentIdControlChars))
    } else {
        Ok(())
    }
}

/// What validating a task description yields: bounded length.
pub open spec fn validate_task_spec(s: Seq<char>) -> BBResult<()> {
    if s.len() > MAX_TASK_LEN {
        Err(BBError::InvalidInput(InvalidReason::TaskTooLong))
    } else {
        Ok(())
    }
}

pub fn validate_task(task: &str) -> (r: BBResult<()>)
    ensures
        r == validate_task_spec(task@),
{
    if task.unicode_len() > MAX_TASK_LEN {
        Err(BBError::InvalidInput(InvalidReason::TaskTooLong))
    } else {
        Ok(())
    }
}

/// What validating a blockers note yields: bounded length.
pub open spec fn validate_blockers_spec(s: Seq<char>) -> BBResult<()> {
    if s.len() > MAX_BLOCKERS_LEN {
        Err(BBError::InvalidInput(InvalidReason::BlockersTooLong))
    } else {
        Ok(())
    }
}

pub fn validate_blockers(blockers: &str) -> (r: BBResult<()>)
    ensures
        r == validate_blockers_spec(blockers@),
{
    if blockers.unicode_len() > MAX_BLOCKERS_LEN {
        Err(BBError::InvalidInput(InvalidReason::BlockersTooLong))
    } else {
        Ok(())
    }
}

/// What validating message content yields: nonempty and bounded.
pub open spec fn validate_message_content_spec(s: Seq<char>) -> BBResult<()> {
    if s.len() == 0 {
        Err(BBError::InvalidInput(InvalidReason::ContentEmpty))
    } else if s.len() > MAX_MESSAGE_CONTENT_LEN {
        Err(BBError::InvalidInput(InvalidReason::ContentTooLong))
    } else {
        Ok(())
    }
}

pub fn validate_message_content(content: &str) -> (r: BBResult<()>)
    ensures
        r == validate_message_content_spec(content@),
{
    let len = content.unicode_len();
    if len == 0 {
        Err(BBError::InvalidInput(InvalidReason::ContentEmpty))
    } else if len > MAX_MESSAGE_CONTENT_LEN {
        Err(BBError::InvalidInput(InvalidReason::ContentTooLong))
    } else {
        Ok(())
    }
}

/// What validating an artifact description yields: bounded length.
pub open spec fn validate_artifact_description_spec(s: Seq<char>) -> BBResult<()> {
    if s.len() > MAX_ARTIFACT_DESC_LEN {
        Err(BBError::InvalidInput(InvalidReason::DescriptionTooLong))
    } else {
        Ok(())
    }
}

pub fn validate_artifact_description(desc: &str) -> (r: BBResult<()>)
    ensures
        r == validate_artifact_description_spec(desc@),
{
    if desc.unicode_len() > MAX_ARTIFACT_DESC_LEN {
        Err(BBError::InvalidInput(InvalidReason::DescriptionTooLong))
    } else {
        Ok(())
    }
}

/// What validating a version string yields: bounded length.
pub open spec fn validate_version_spec(s: Seq<char>) -> BBResult<()> {
    if s.len() > MAX_VERSION_LEN {
        Err(BBError::InvalidInput(InvalidReason::VersionTooLong))
    } else {
        Ok(())
    }
}

pub fn validate_version(version: &str) -> (r: BBResult<()>)
    ensures
        r == validate_version_spec(version@),
{
    if version.unicode_len() > MAX_VERSION_LEN {
        Err(BBError::InvalidInput(InvalidReason::VersionTooLong))
    } else {
        Ok(())
    }
}

/// The reason a single tag is rejected, if any: empty, over-long, or holding
/// white space or control characters.
pub open spec fn tag_error(t: Seq<char>) -> Option<InvalidReason> {
    if t.len() == 0 {
        Some(InvalidReason::TagEmpty)
    } else if t.len() > MAX_TAG_LEN {
        Some(InvalidReason::TagTooLong)
    } else if has_control_or_space_char(t) {
        Some(InvalidReason::TagInvalidChars)
    } else {
        None
    }
}

/// The first tag error in order, if any.
pub open spec fn first_tag_error(tags: Seq<Seq<char>>) -> Option<InvalidReason>
    decreases tags.len(),
{
    if tags.len() == 0 {
        None
    } else if tag_error(tags[0]) is Some {
        tag_error(tags[0])
    } else {
        first_tag_error(tags.drop_first())
    }
}

/// What validating a tag list yields: a bounded count of well-formed tags;
/// the error names the first offense.
pub open spec fn validate_tags_spec(tags: Seq<Seq<char>>) -> BBResult<()> {
    if tags.len() > MAX_TAGS_PER_MESSAGE {
        Err(BBError::InvalidInput(InvalidReason::TooManyTags))
    } else {
        match first_tag_error(tags) {
            Some(reason) => Err(BBError::InvalidInput(reason)),
            None => Ok(()),
        }
    }
}

fn check_one_tag(t: &str) -> (r: Option<InvalidReason>)
    ensures
        r == tag_error(t@),
{
    let len = t.unicode_len();
    if len == 0 {
        Some(InvalidReason::TagEmpty)
    } else if len > MAX_TAG_LEN {
        Some(InvalidReason::TagTooLong)
    } else if scan_control_or_space(t) {
        Some(InvalidReason::TagInvalidChars)
    } else {
        None
    }
}

pub fn validate_tags(tags: &Vec<String>) -> (r: BBResult<()>)
    ensures
        r == validate_tags_spec(tags.deep_view()),
{
    let ghost tv = tags.deep_view();
    if tags.len() > MAX_TAGS_PER_MESSAGE {
        return Err(BBError::InvalidInput(InvalidReason::TooManyTags));
    }
    proof {
        assert(tv.skip(0) =~= tv);
    }
    let mut i: usize = 0;
    while i < tags.len()
        invariant
            i <= tags@.len(),
            tv == tags.deep_view(),
            tv.len() == tags@.len(),
            tv.len() <= MAX_TAGS_PER_MESSAGE,
            first_tag_error(tv) == first_tag_error(tv.skip(i as int)),
        decreases tags@.len() - i,
    {
        proof {
            assert(tv[i as int] == tags@[i as int]@);
        }
        if let Some(reason) = check_one_tag(&tags[i]) {
            proof {
                assert(tv.skip(i as int)[0] == tv[i as int]);
                assert(tag_error(tv[i as int]) == Some(reason));
                assert(first_tag_error(tv.skip(i as int)) == Some(reason));
            }
            return Err(BBError::InvalidInput(reason));
        }
        proof {
            assert(tv.skip(i as int)[0] == tv[i as int]);
            assert(tv.skip(i as int).drop_first() =~= tv.skip(i as int + 1));
        }
        i = i + 1;
    }
    proof {
        assert(tv.skip(tv.len() as int).len() == 0);
    }
    Ok(())
}

/// Whether `s` holds two consecutive dots anywhere.
pub open spec fn has_dotdot(s: Seq<char>) -> bool {
    exists|i: int| 0 <= i < s.len() - 1 && #[trigger] s[i] == '.' && s[i + 1] == '.'
}

/// What the boundary reported of resolving the path against the project
/// root: the resolved path stays inside the root, escapes it, or resolution
/// itself failed (for instance because the file does not exist).
#[derive(Clone, Copy, Debug, PartialEq, Eq, Structural)]
pub enum PathResolution {
    Inside,
    Outside,
    Failed,
}

/// What validating an artifact path yields. The textual checks reject empty
/// or over-long paths, absolute paths, and any path containing `..`, before
/// the resolution answer is even consulted; a failed resolution fails closed.
pub open spec fn validate_artifact_path_spec(s: Seq<char>, res: PathResolution) -> BBResult<()> {
    if s.len() == 0 {
        Err(BBError::InvalidInput(InvalidReason::PathEmpty))
    } else if s.len() > MAX_ARTIFACT_PATH_LEN {
        Err(BBError::InvalidInput(InvalidReason::PathTooLong))
    } else if s[0] == '/' {
        Err(BBError::PathTraversal(TraversalReason::AbsolutePath))
    } else if has_dotdot(s) {
        Err(BBError::PathTraversal(TraversalReason::ParentSegment))
    } else {
        match res {
            PathResolution::Failed => Err(BBError::InvalidInput(InvalidReason::PathUnresolvable)),
            PathResolution::Outside => Err(BBError::PathTraversal(TraversalReason::EscapesRoot)),
            PathResolution::Inside => Ok(()),
        }
    }
}

fn scan_dotdot(s: &str) -> (r: bool)
    ensures
        r == has_dotdot(s@),
{
    let len = s.unicode_len();
    if len < 2 {
        return false;
    }
    let mut i: usize = 0;
    while i < len - 1
        invariant
            i <= len - 1,
            len == s@.len(),
            forall|j: int| 0 <= j < i ==> !(#[trigger] s@[j] == '.' && s@[j + 1] == '.'),
        decreases len - i,
    {
        if s.get_char(i) == '.' && s.get_char(i + 1) == '.' {
            return true;
        }
        i = i + 1;
    }
    false
}

/// Validates an artifact path. The textual checks are decided here; whether
/// the path resolves inside the project root is the boundary's filesystem
/// answer, handed in as `resolution` and consulted only after every textual
/// check has passed.
pub fn validate_artifact_path(path: &str, resolution: PathResolution) -> (r: BBResult<()>)
    ensures
        r == validate_artifact_path_spec(path@, resolution),
{
    let len = path.unicode_len();
    if len == 0 {
        Err(BBError::InvalidInput(InvalidReason::PathEmpty))
    } else if len > MAX_ARTIFACT_PATH_LEN {
        Err(BBError::InvalidInput(InvalidReason::PathTooLong))
    } else if path.get_char(0) == '/' {
        Err(BBError::PathTraversal(TraversalReason::AbsolutePath))
    } else if scan_dotdot(path) {
        Err(BBError::PathTraversal(TraversalReason::ParentSegment))
    } else {
        match resolution {
            PathResolution::Failed => Err(BBError::InvalidInput(InvalidReason::PathUnresolvable)),
            PathResolution::Outside => Err(BBError::PathTraversal(TraversalReason::EscapesRoot)),
            PathResolution::Inside => Ok(()),
        }
    }
}

/// Validates a reference string, as [`crate::reference::parse_ref`] does.
pub fn validate_ref(s: &str) -> (r: BBResult<crate::reference::Reference>)
    ensures
        match r {
            Ok(rf) => crate::reference::parse_ref_spec(s@) == Some(rf@),
            Err(e) => crate::reference::parse_ref_spec(s@) is None && e
                == BBError::InvalidRefFormat,
        },
{
    crate::reference::parse_ref(s)
}

} // verus!
