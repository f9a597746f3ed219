//! Checks of command line arguments.
use crate::text::{chars_of, is_digit};
use vstd::prelude::*;

verus! {

/// Greatest length of a group name.
pub const MAX_GROUP_NAME_LENGTH: usize = 32;

/// Whether `c` is one of the characters `[A-Za-z0-9_-]`.
pub open spec fn is_group_char(c: char) -> bool {
    'a' <= c <= 'z' || 'A' <= c <= 'Z' || is_digit(c) || c == '_' || c == '-'
}

/// Whether a text may name a group: not empty, not too long, made of the allowed characters, and
/// neither beginning nor ending with `-`.
pub open spec fn is_group_name(s: Seq<char>) -> bool {
    &&& 0 < s.len() <= MAX_GROUP_NAME_LENGTH
    &&& s[0] != '-'
    &&& s.last() != '-'
    &&& forall|i: int| 0 <= i < s.len() ==> is_group_char(#[trigger] s[i])
}

/// The refusal of a group name.
#[derive(Debug)]
pub struct InvalidGroup {
    /// The name.
    pub group: String,
}

impl InvalidGroup {
    /// What to report.
    pub fn message(&self) -> (r: String)
        ensures
            r@ == "Invalid  group name '"@ + self.group@
                + "'. Allowed characters: [A-Za-z0-9_-], max length 32."@,
    {
        let mut r = "Invalid  group name '".to_owned();
        r.append(self.group.as_str());
        r.append("'. Allowed characters: [A-Za-z0-9_-], max length 32.");
        r
    }
}

/// Validate a group name.
pub fn validate_group_name(group: &str) -> (r: Result<String, InvalidGroup>)
    ensures
        match r {
            Ok(name) => is_group_name(group@) && name@ == group@,
            Err(refusal) => !is_group_name(group@) && refusal.group@ == group@,
        },
{
    let chars = chars_of(group);
    let n: usize = chars.len();
    let mut valid = 0 < n && n <= MAX_GROUP_NAME_LENGTH;
    if valid {
        valid = chars[0] != '-' && chars[n - 1] != '-';
    }
    let mut i: usize = 0;
    while i < n
        invariant
            n == chars@.len(),
            chars@ == group@,
            i <= n,
            valid == (0 < n <= MAX_GROUP_NAME_LENGTH && group@[0] != '-' && group@.last() != '-'
                && forall|j: int| 0 <= j < i ==> is_group_char(#[trigger] group@[j])),
        decreases n - i,
    {
        let c = chars[i];
        let allowed = ('a' <= c && c <= 'z') || ('A' <= c && c <= 'Z') || ('0' <= c && c <= '9') || c
            == '_' || c == '-';
        assert(allowed == is_group_char(group@[i as int]));
        if !allowed {
            valid = false;
        }
        i = i + 1;
    }
    if valid {
        Ok(group.to_owned())
    } else {
        Err(InvalidGroup { group: group.to_owned() })
    }
}

/// A group name is accepted unchanged if and only if it has 1 to 32 characters of `[A-Za-z0-9_-]`
/// and neither begins nor ends with `-`.
pub proof fn group_names_are_checked(group: &str, r: Result<String, InvalidGroup>)
    requires
        call_ensures(validate_group_name, (group,), r),
    ensures
        r is Ok <==> {
            &&& 0 < group@.len() <= 32
            &&& group@[0] != '-'
            &&& group@.last() != '-'
            &&& forall|i: int|
                0 <= i < group@.len() ==> 'a' <= #[trigger] group@[i] <= 'z' || 'A' <= group@[i]
                    <= 'Z' || '0' <= group@[i] <= '9' || group@[i] == '_' || group@[i] == '-'
        },
        r is Ok ==> r->Ok_0@ == group@,
        r is Err ==> r->Err_0.group@ == group@,
{
}

} // verus!
