//! Pattern groups and the search for the first pattern whose first capture
//! group picks an address out of a journal message.

use vstd::prelude::*;
use crate::text::{strip_prefix, without_prefix};

verus! {

/// One pattern: a regular expression whose first capture group is the
/// offending address, the score a match adds, and the seconds of an instant
/// block (none when not positive).
pub struct PatternItem {
    pub pattern_str: String,
    /// Score added per match, in thousandths of a point.
    pub score: i64,
    pub instant_block: i32,
}

/// Patterns that share a journal filter.
pub struct FilterGroup {
    pub filter_str: String,
    pub items: Vec<PatternItem>,
}

/// Whether `regex::Regex::new` accepts `pattern`.
pub uninterp spec fn regex_accepts(pattern: Seq<char>) -> bool;

/// The text of capture group 1 in the leftmost match of the regular
/// expression `pattern` in `haystack`, if there is a match and the group
/// took part in it.
pub uninterp spec fn regex_first_group(pattern: Seq<char>, haystack: Seq<char>) -> Option<Seq<char>>;

/// What searching a message with one pattern came to.
pub enum CaptureOutcome {
    /// The pattern is not a regular expression that compiles.
    InvalidPattern,
    /// No match, or capture group 1 did not take part in it.
    NoCapture,
    /// The text of capture group 1.
    Captured(String),
}

/// Compiles `pattern` with `regex::Regex::new` and, if that succeeds, searches
/// `haystack` with `Regex::captures` and reads group 1 with `Captures::get`.
/// Claimed: the pattern is refused exactly when `regex_accepts` is false;
/// otherwise the outcome is `regex_first_group` of the two arguments; a
/// captured text is a contiguous part of `haystack` (`Match::as_str` returns
/// the matched substring of the haystack).
#[verifier::external_body]
fn capture_first_group(pattern: &str, haystack: &str) -> (res: CaptureOutcome)
    ensures
        (res is InvalidPattern) <==> !regex_accepts(pattern@),
        regex_accepts(pattern@) ==> match res {
            CaptureOutcome::Captured(text) => regex_first_group(pattern@, haystack@) == Some(text@),
            _ => regex_first_group(pattern@, haystack@) is None,
        },
        res matches CaptureOutcome::Captured(text) ==> exists|start: int|
            0 <= start && start + text@.len() <= haystack@.len()
            && #[trigger] haystack@.subrange(start, start + text@.len()) == text@,
{
    match regex::Regex::new(pattern) {
        Ok(re) => match re.captures(haystack) {
            Some(caps) => match caps.get(1) {
                Some(group) => CaptureOutcome::Captured(group.as_str().to_string()),
                None => CaptureOutcome::NoCapture,
            },
            None => CaptureOutcome::NoCapture,
        },
        Err(_) => CaptureOutcome::InvalidPattern,
    }
}

/// The expression of a pattern: its text without a leading `MESSAGE=`.
pub open spec fn expression_of(pattern: Seq<char>) -> Seq<char> {
    without_prefix(pattern, "MESSAGE="@)
}

/// The address one pattern picks out of `message`, if any.
pub open spec fn item_capture(message: Seq<char>, item: PatternItem) -> Option<Seq<char>> {
    let expr = expression_of(item.pattern_str@);
    if regex_accepts(expr) {
        regex_first_group(expr, message)
    } else {
        None
    }
}

/// The address, score and instant-block seconds of the first pattern of
/// `items` that picks an address out of `message`.
pub open spec fn first_item_match(message: Seq<char>, items: Seq<PatternItem>) -> Option<(Seq<char>, i64, i32)>
    decreases items.len(),
{
    if items.len() == 0 {
        None
    } else {
        match item_capture(message, items[0]) {
            Some(ip) => Some((ip, items[0].score, items[0].instant_block)),
            None => first_item_match(message, items.drop_first()),
        }
    }
}

/// The first match of `message` over the groups, taken in order, and over
/// the items of each group, taken in order.
pub open spec fn first_group_match(message: Seq<char>, groups: Seq<FilterGroup>) -> Option<(Seq<char>, i64, i32)>
    decreases groups.len(),
{
    if groups.len() == 0 {
        None
    } else {
        match first_item_match(message, groups[0].items@) {
            Some(m) => Some(m),
            None => first_group_match(message, groups.drop_first()),
        }
    }
}

/// The view of a match result.
pub open spec fn match_view(r: Option<(String, i64, i32)>) -> Option<(Seq<char>, i64, i32)> {
    match r {
        Some((ip, score, ban)) => Some((ip@, score, ban)),
        None => None,
    }
}

/// The text of `pattern_str` that is compiled: without a leading `MESSAGE=`.
pub fn pattern_expression(pattern_str: &str) -> (res: &str)
    ensures
        res@ == expression_of(pattern_str@),
{
    strip_prefix(pattern_str, "MESSAGE=")
}

/// What one pattern yields from the outcome of its search: its address,
/// score and instant-block seconds when group 1 was captured, nothing else.
pub fn item_match(item: &PatternItem, outcome: CaptureOutcome) -> (res: Option<(String, i64, i32)>)
    ensures
        match_view(res) == match outcome {
            CaptureOutcome::Captured(ip) => Some((ip@, item.score, item.instant_block)),
            _ => None,
        },
{
    match outcome {
        CaptureOutcome::Captured(ip) => Some((ip, item.score, item.instant_block)),
        _ => None,
    }
}

proof fn lemma_item_step(message: Seq<char>, items: Seq<PatternItem>, j: int)
    requires
        0 <= j < items.len(),
        item_capture(message, items[j]) is None,
    ensures
        first_item_match(message, items.skip(j)) == first_item_match(message, items.skip(j + 1)),
{
    assert(items.skip(j).drop_first() =~= items.skip(j + 1));
}

proof fn lemma_group_step(message: Seq<char>, groups: Seq<FilterGroup>, g: int)
    requires
        0 <= g < groups.len(),
        first_item_match(message, groups[g].items@) is None,
    ensures
        first_group_match(message, groups.skip(g)) == first_group_match(message, groups.skip(g + 1)),
{
    assert(groups.skip(g).drop_first() =~= groups.skip(g + 1));
}

/// The address, score and instant-block seconds of the first pattern, over
/// the groups and their items in order, whose expression compiles and whose
/// capture group 1 takes part in a match of `message`. Patterns that do not
/// compile are passed over.
pub fn match_message(message: &str, pattern_groups: &[FilterGroup]) -> (res: Option<(String, i64, i32)>)
    ensures
        match_view(res) == first_group_match(message@, pattern_groups@),
{
    let mut g: usize = 0;
    assert(pattern_groups@.skip(0) =~= pattern_groups@);
    while g < pattern_groups.len()
        invariant
            g <= pattern_groups@.len(),
            first_group_match(message@, pattern_groups@.skip(g as int)) == first_group_match(message@, pattern_groups@),
        decreases pattern_groups@.len() - g,
    {
        let items = &pattern_groups[g].items;
        let ghost item_seq = items@;
        let mut j: usize = 0;
        assert(item_seq.skip(0) =~= item_seq);
        while j < items.len()
            invariant
                items@ == item_seq,
                g < pattern_groups@.len(),
                item_seq == pattern_groups@[g as int].items@,
                first_group_match(message@, pattern_groups@.skip(g as int)) == first_group_match(message@, pattern_groups@),
                j <= item_seq.len(),
                first_item_match(message@, item_seq.skip(j as int)) == first_item_match(message@, item_seq),
            decreases item_seq.len() - j,
        {
            let item = &items[j];
            let outcome = capture_first_group(pattern_expression(item.pattern_str.as_str()), message);
            let found = item_match(item, outcome);
            if found.is_some() {
                assert(item_seq.skip(j as int)[0] == item_seq[j as int]);
                assert(pattern_groups@.skip(g as int)[0] == pattern_groups@[g as int]);
                return found;
            }
            proof {
                lemma_item_step(message@, item_seq, j as int);
            }
            j = j + 1;
        }
        proof {
            assert(item_seq.skip(j as int).len() == 0);
            lemma_group_step(message@, pattern_groups@, g as int);
        }
        g = g + 1;
    }
    assert(pattern_groups@.skip(g as int).len() == 0);
    None
}


/// Every item of the groups, group after group, each group's items in order.
pub open spec fn all_items(groups: Seq<FilterGroup>) -> Seq<PatternItem>
    decreases groups.len(),
{
    if groups.len() == 0 {
        Seq::empty()
    } else {
        groups[0].items@ + all_items(groups.drop_first())
    }
}

/// The first match over two item lists one after the other is the first
/// list's, or else the second's.
pub proof fn law_items_concatenate(message: Seq<char>, a: Seq<PatternItem>, b: Seq<PatternItem>)
    ensures
        first_item_match(message, a + b) == match first_item_match(message, a) {
            Some(m) => Some(m),
            None => first_item_match(message, b),
        },
    decreases a.len(),
{
    if a.len() > 0 {
        assert((a + b)[0] == a[0]);
        assert((a + b).drop_first() =~= a.drop_first() + b);
        law_items_concatenate(message, a.drop_first(), b);
    } else {
        assert(a + b =~= b);
    }
}

/// The first match over two group lists one after the other is the first
/// list's, or else the second's: earlier groups take precedence.
pub proof fn law_groups_concatenate(message: Seq<char>, gs: Seq<FilterGroup>, hs: Seq<FilterGroup>)
    ensures
        first_group_match(message, gs + hs) == match first_group_match(message, gs) {
            Some(m) => Some(m),
            None => first_group_match(message, hs),
        },
    decreases gs.len(),
{
    if gs.len() > 0 {
        assert((gs + hs)[0] == gs[0]);
        assert((gs + hs).drop_first() =~= gs.drop_first() + hs);
        law_groups_concatenate(message, gs.drop_first(), hs);
    } else {
        assert(gs + hs =~= hs);
    }
}

/// Filters and grouping do not change the match: it is the first match over
/// all items, group after group, in order.
pub proof fn law_grouping_is_irrelevant(message: Seq<char>, groups: Seq<FilterGroup>)
    ensures
        first_group_match(message, groups) == first_item_match(message, all_items(groups)),
    decreases groups.len(),
{
    if groups.len() > 0 {
        law_grouping_is_irrelevant(message, groups.drop_first());
        law_items_concatenate(message, groups[0].items@, all_items(groups.drop_first()));
    }
}

/// Two group lists that hold the same items in the same order, whatever
/// their filters and however the items are grouped, match alike.
pub proof fn law_same_items_same_match(message: Seq<char>, groups: Seq<FilterGroup>, regrouped: Seq<FilterGroup>)
    requires
        all_items(groups) == all_items(regrouped),
    ensures
        first_group_match(message, groups) == first_group_match(message, regrouped),
{
    law_grouping_is_irrelevant(message, groups);
    law_grouping_is_irrelevant(message, regrouped);
}

} // verus!
