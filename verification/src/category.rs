//! Guessing a display category from an application's name: the lowered name
//! is tested against an ordered list of keyword groups and the first group
//! with a matching keyword wins; a name matching no group is "Other".

use vstd::prelude::*;
use vstd::string::*;
use crate::strutil::{contains_seq, contains_substring};

verus! {

/// What `str::to_lowercase` returns for a given character sequence.
pub uninterp spec fn lower_of(s: Seq<char>) -> Seq<char>;

/// Relies on `str::to_lowercase`: the lowercase mapping depends on the
/// characters of the input alone.
#[verifier::external_body]
pub(crate) fn lowercase(s: &str) -> (r: String)
    ensures
        r@ == lower_of(s@),
{
    s.to_lowercase()
}

/// The number of keyword groups, not counting the "Other" fallback.
pub open spec fn group_count() -> int {
    6
}

/// The label of keyword group `i`; anything past the groups is "Other".
pub open spec fn group_label(i: int) -> Seq<char> {
    if i == 0 {
        "Development"@
    } else if i == 1 {
        "Social"@
    } else if i == 2 {
        "Media"@
    } else if i == 3 {
        "Internet"@
    } else if i == 4 {
        "Design"@
    } else if i == 5 {
        "System"@
    } else {
        "Other"@
    }
}

/// The keywords of group `i`.
pub open spec fn group_keywords(i: int) -> Seq<Seq<char>> {
    if i == 0 {
        seq!["code"@, "term"@, "xcode"@]
    } else if i == 1 {
        seq!["discord"@, "slack"@, "mail"@, "message"@]
    } else if i == 2 {
        seq!["spotify"@, "music"@, "tv"@, "photo"@]
    } else if i == 3 {
        seq!["chrome"@, "safari"@, "firefox"@]
    } else if i == 4 {
        seq!["figma"@, "adobe"@]
    } else if i == 5 {
        seq!["settings"@, "preference"@, "activity"@]
    } else {
        Seq::empty()
    }
}

/// The lowered name `s` holds some keyword of group `i`.
pub open spec fn group_matches(s: Seq<char>, i: int) -> bool {
    exists|k: int| 0 <= k < group_keywords(i).len() && contains_seq(s, #[trigger] group_keywords(i)[k])
}

/// The category for the lowered name `s`: the label of the first matching
/// group, or "Other".
pub open spec fn spec_guess_category(s: Seq<char>) -> Seq<char> {
    if group_matches(s, 0) {
        group_label(0)
    } else if group_matches(s, 1) {
        group_label(1)
    } else if group_matches(s, 2) {
        group_label(2)
    } else if group_matches(s, 3) {
        group_label(3)
    } else if group_matches(s, 4) {
        group_label(4)
    } else if group_matches(s, 5) {
        group_label(5)
    } else {
        "Other"@
    }
}

/// Tests one keyword against the lowered name, tying the executable check to
/// membership of that keyword in its group.
fn keyword_hit(lower: &str, kw: &str, Ghost(i): Ghost<int>, Ghost(k): Ghost<int>) -> (r: bool)
    requires
        0 <= k < group_keywords(i).len(),
        group_keywords(i)[k] == kw@,
    ensures
        r ==> group_matches(lower@, i),
        !r ==> !contains_seq(lower@, group_keywords(i)[k]),
{
    contains_substring(lower, kw)
}

/// Guesses the display category of an application from its name.
pub fn guess_category(name: &str) -> (r: String)
    ensures
        r@ == spec_guess_category(lower_of(name@)),
{
    let lower_string = lowercase(name);
    let lower = lower_string.as_str();
    let ghost ls = lower_of(name@);

    if keyword_hit(lower, "code", Ghost(0), Ghost(0)) || keyword_hit(lower, "term", Ghost(0), Ghost(1))
        || keyword_hit(lower, "xcode", Ghost(0), Ghost(2)) {
        return String::from_str("Development");
    }
    proof {
        assert(forall|k: int| 0 <= k < group_keywords(0).len() ==> !contains_seq(ls, #[trigger] group_keywords(0)[k])) by {
            assert(!contains_seq(ls, group_keywords(0)[0]));
            assert(!contains_seq(ls, group_keywords(0)[1]));
            assert(!contains_seq(ls, group_keywords(0)[2]));
        }
        assert(!group_matches(ls, 0));
    }
    if keyword_hit(lower, "discord", Ghost(1), Ghost(0)) || keyword_hit(lower, "slack", Ghost(1), Ghost(1))
        || keyword_hit(lower, "mail", Ghost(1), Ghost(2)) || keyword_hit(lower, "message", Ghost(1), Ghost(3)) {
        return String::from_str("Social");
    }
    proof {
        assert(forall|k: int| 0 <= k < group_keywords(1).len() ==> !contains_seq(ls, #[trigger] group_keywords(1)[k])) by {
            assert(!contains_seq(ls, group_keywords(1)[0]));
            assert(!contains_seq(ls, group_keywords(1)[1]));
            assert(!contains_seq(ls, group_keywords(1)[2]));
            assert(!contains_seq(ls, group_keywords(1)[3]));
        }
        assert(!group_matches(ls, 1));
    }
    if keyword_hit(lower, "spotify", Ghost(2), Ghost(0)) || keyword_hit(lower, "music", Ghost(2), Ghost(1))
        || keyword_hit(lower, "tv", Ghost(2), Ghost(2)) || keyword_hit(lower, "photo", Ghost(2), Ghost(3)) {
        return String::from_str("Media");
    }
    proof {
        assert(forall|k: int| 0 <= k < group_keywords(2).len() ==> !contains_seq(ls, #[trigger] group_keywords(2)[k])) by {
            assert(!contains_seq(ls, group_keywords(2)[0]));
            assert(!contains_seq(ls, group_keywords(2)[1]));
            assert(!contains_seq(ls, group_keywords(2)[2]));
            assert(!contains_seq(ls, group_keywords(2)[3]));
        }
        assert(!group_matches(ls, 2));
    }
    if keyword_hit(lower, "chrome", Ghost(3), Ghost(0)) || keyword_hit(lower, "safari", Ghost(3), Ghost(1))
        || keyword_hit(lower, "firefox", Ghost(3), Ghost(2)) {
        return String::from_str("Internet");
    }
    proof {
        assert(forall|k: int| 0 <= k < group_keywords(3).len() ==> !contains_seq(ls, #[trigger] group_keywords(3)[k])) by {
            assert(!contains_seq(ls, group_keywords(3)[0]));
            assert(!contains_seq(ls, group_keywords(3)[1]));
            assert(!contains_seq(ls, group_keywords(3)[2]));
        }
        assert(!group_matches(ls, 3));
    }
    if keyword_hit(lower, "figma", Ghost(4), Ghost(0)) || keyword_hit(lower, "adobe", Ghost(4), Ghost(1)) {
        return String::from_str("Design");
    }
    proof {
        assert(forall|k: int| 0 <= k < group_keywords(4).len() ==> !contains_seq(ls, #[trigger] group_keywords(4)[k])) by {
            assert(!contains_seq(ls, group_keywords(4)[0]));
            assert(!contains_seq(ls, group_keywords(4)[1]));
        }
        assert(!group_matches(ls, 4));
    }
    if keyword_hit(lower, "settings", Ghost(5), Ghost(0)) || keyword_hit(lower, "preference", Ghost(5), Ghost(1))
        || keyword_hit(lower, "activity", Ghost(5), Ghost(2)) {
        return String::from_str("System");
    }
    proof {
        assert(forall|k: int| 0 <= k < group_keywords(5).len() ==> !contains_seq(ls, #[trigger] group_keywords(5)[k])) by {
            assert(!contains_seq(ls, group_keywords(5)[0]));
            assert(!contains_seq(ls, group_keywords(5)[1]));
            assert(!contains_seq(ls, group_keywords(5)[2]));
        }
        assert(!group_matches(ls, 5));
    }
    String::from_str("Other")
}

/// Law: a name whose lowered form matches group `i` and none of the groups
/// before it is labelled with group `i`'s label — the groups are tried in
/// order and the first match wins.
pub proof fn lemma_first_matching_group(s: Seq<char>, i: int)
    requires
        0 <= i < group_count(),
        group_matches(s, i),
        forall|j: int| 0 <= j < i ==> !group_matches(s, j),
    ensures
        spec_guess_category(s) == group_label(i),
{
}

/// Law: a name whose lowered form matches no keyword group is labelled
/// "Other".
pub proof fn lemma_no_group_matches(s: Seq<char>)
    requires
        forall|j: int| 0 <= j < group_count() ==> !group_matches(s, j),
    ensures
        spec_guess_category(s) == "Other"@,
{
}

} // verus!
