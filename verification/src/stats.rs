//! The statistics face of the analytics engine. These functions mirror the
//! aggregations in [`crate::data`]; [`top_words`] differs from
//! [`crate::data::word_frequency`] only in its filter, which keeps letters
//! alone rather than letters and digits.

use vstd::prelude::*;

use crate::data::all_tokens;
use crate::data::author_ids;
use crate::data::count_table_spec;
use crate::data::freq_table_spec;
use crate::data::occurrences;
use crate::data::sum_counts;
use crate::data::total_fields;
use crate::data::users_spec;
use crate::data::UserTally;
use crate::data::WordTally;
use crate::model::Message;
use crate::model::User;

verus! {

/// The number of messages sent per user; see
/// [`crate::data::message_count_by_user`].
pub fn message_count_by_user(messages: &Vec<Message>) -> (r: Vec<UserTally>)
    requires
        messages@.len() <= u32::MAX,
    ensures
        r.deep_view() == count_table_spec(messages.deep_view()),
        sum_counts(r.deep_view()) == messages.deep_view().len(),
        r.deep_view().len() == author_ids(messages.deep_view()).len(),
{
    crate::data::message_count_by_user(messages)
}

/// The unique list of all users that authored messages; see
/// [`crate::data::all_users`].
pub fn all_users(messages: &Vec<Message>) -> (r: Vec<User>)
    ensures
        r.deep_view() == users_spec(messages.deep_view()),
        r.deep_view().len() == author_ids(messages.deep_view()).len(),
{
    crate::data::all_users(messages)
}

/// The word-frequency table of the messages, with the letters-only filter:
/// when `restrict_to_alphanumeric` is set, every character that is not a
/// letter is deleted from a field before it is counted. There is never an
/// entry for the empty string.
pub fn top_words(
    messages: &Vec<Message>,
    case_sensitive: bool,
    restrict_to_alphanumeric: bool,
) -> (r: Vec<WordTally>)
    requires
        total_fields(messages.deep_view()) <= u32::MAX,
    ensures
        r.deep_view() == freq_table_spec(
            messages.deep_view(),
            case_sensitive,
            restrict_to_alphanumeric,
            true,
        ),
        forall|k: int| 0 <= k < r.deep_view().len() ==> #[trigger] r.deep_view()[k].word.len() != 0,
        forall|i: int, j: int|
            0 <= i < j < r.deep_view().len() ==> #[trigger] r.deep_view()[i].word
                != #[trigger] r.deep_view()[j].word,
        forall|k: int|
            0 <= k < r.deep_view().len() ==> #[trigger] r.deep_view()[k].count == occurrences(
                all_tokens(messages.deep_view(), case_sensitive, restrict_to_alphanumeric, true),
                r.deep_view()[k].word,
            ),
        forall|w: Seq<char>|
            #[trigger] all_tokens(
                messages.deep_view(),
                case_sensitive,
                restrict_to_alphanumeric,
                true,
            ).contains(w) ==> exists|k: int|
                0 <= k < r.deep_view().len() && #[trigger] r.deep_view()[k].word == w,
{
    crate::data::top_words_table(messages, case_sensitive, restrict_to_alphanumeric)
}

/// The total number of space-separated fields over all message contents; see
/// [`crate::data::word_count`].
pub fn word_count(messages: &Vec<Message>) -> (r: u32)
    requires
        total_fields(messages.deep_view()) <= u32::MAX,
    ensures
        r as int == total_fields(messages.deep_view()),
{
    crate::data::word_count(messages)
}

} // verus!
