//! Which translation bundles are consulted, in what order, and which one
//! answers a message.
//!
//! Languages are known by their index in the table of shipped languages;
//! turning a locale identifier into an index is the caller's part.

use vstd::prelude::*;
use crate::text::str_eq;

verus! {

/// How many languages the player ships translations for.
pub const LANG_COUNT: usize = 12;

/// The index of `en-US`, the language every order falls back to.
pub const ENGLISH: usize = 0;

/// The tag of the shipped language with index `i`.
pub open spec fn lang_tag_view(i: int) -> Seq<char> {
    if i == 0 {
        "en-US"@
    } else if i == 1 {
        "fr-FR"@
    } else if i == 2 {
        "id-ID"@
    } else if i == 3 {
        "ja-JP"@
    } else if i == 4 {
        "ko-KR"@
    } else if i == 5 {
        "pl-PL"@
    } else if i == 6 {
        "pt-BR"@
    } else if i == 7 {
        "ru-RU"@
    } else if i == 8 {
        "th-TH"@
    } else if i == 9 {
        "vi-VN"@
    } else if i == 10 {
        "zh-CN"@
    } else {
        "zh-TW"@
    }
}

/// The tag of the shipped language with index `i`.
pub fn lang_tag(i: usize) -> (t: &'static str)
    requires
        i < LANG_COUNT,
    ensures
        t@ == lang_tag_view(i as int),
{
    if i == 0 {
        "en-US"
    } else if i == 1 {
        "fr-FR"
    } else if i == 2 {
        "id-ID"
    } else if i == 3 {
        "ja-JP"
    } else if i == 4 {
        "ko-KR"
    } else if i == 5 {
        "pl-PL"
    } else if i == 6 {
        "pt-BR"
    } else if i == 7 {
        "ru-RU"
    } else if i == 8 {
        "th-TH"
    } else if i == 9 {
        "vi-VN"
    } else if i == 10 {
        "zh-CN"
    } else {
        "zh-TW"
    }
}

/// The index of the shipped language whose tag is `tag`, if one is.
pub fn lang_index(tag: &str) -> (r: Option<usize>)
    ensures
        r matches Some(i) ==> i < LANG_COUNT && lang_tag_view(i as int) == tag@ && forall|j: int|
            0 <= j < i ==> lang_tag_view(j) != tag@,
        r is None ==> forall|j: int| 0 <= j < LANG_COUNT ==> lang_tag_view(j) != tag@,
{
    let mut i: usize = 0;
    while i < LANG_COUNT
        invariant
            i <= LANG_COUNT,
            forall|j: int| 0 <= j < i ==> lang_tag_view(j) != tag@,
        decreases LANG_COUNT - i,
    {
        if str_eq(lang_tag(i), tag) {
            return Some(i);
        }
        i = i + 1;
    }
    None
}

/// The languages named by an optional index: none, or that one.
pub open spec fn opt_seq(o: Option<usize>) -> Seq<usize> {
    match o {
        Some(i) => seq![i],
        None => Seq::empty(),
    }
}

/// Whether an optional language index names a shipped language.
pub open spec fn opt_valid(o: Option<usize>) -> bool {
    o matches Some(i) ==> i < LANG_COUNT
}

/// The order a fresh start consults: the system's language, when it is one
/// of the shipped ones, then `en-US`.
pub fn initial_locale_order(system: Option<usize>) -> (order: Vec<usize>)
    requires
        opt_valid(system),
    ensures
        order@ == opt_seq(system).push(ENGLISH),
        order@.len() >= 1,
        order@.last() == ENGLISH,
        forall|k: int| 0 <= k < order@.len() ==> order@[k] < LANG_COUNT,
{
    let mut order: Vec<usize> = Vec::new();
    if let Some(i) = system {
        order.push(i);
    }
    order.push(ENGLISH);
    proof {
        assert(order@ =~= opt_seq(system).push(ENGLISH));
    }
    order
}

/// The order after the user picks a language: the picked one, then the
/// system's, then `en-US`; a language that is not shipped is left out.
pub fn prefered_locale_order(preferred: Option<usize>, system: Option<usize>) -> (order: Vec<usize>)
    requires
        opt_valid(preferred),
        opt_valid(system),
    ensures
        order@ == opt_seq(preferred) + opt_seq(system).push(ENGLISH),
        preferred matches Some(p) ==> order@[0] == p,
        order@.last() == ENGLISH,
        forall|k: int| 0 <= k < order@.len() ==> order@[k] < LANG_COUNT,
{
    let mut order: Vec<usize> = Vec::new();
    if let Some(p) = preferred {
        order.push(p);
    }
    if let Some(s) = system {
        order.push(s);
    }
    order.push(ENGLISH);
    proof {
        assert(order@ =~= opt_seq(preferred) + opt_seq(system).push(ENGLISH));
    }
    order
}

/// The first bundle, in `order`, that has the message (`has_message[id]`
/// for bundle `id`), if any does.
pub open spec fn first_with(order: Seq<usize>, has_message: Seq<bool>) -> Option<usize>
    decreases order.len(),
{
    if order.len() == 0 {
        None
    } else if has_message[order[0] as int] {
        Some(order[0])
    } else {
        first_with(order.drop_first(), has_message)
    }
}

/// The bundle that answers a message: the first, in `order`, that has it.
/// Every bundle in `order` must be one of `has_message`'s.
pub fn bundle_for(order: &Vec<usize>, has_message: &Vec<bool>) -> (r: Option<usize>)
    requires
        forall|k: int| 0 <= k < order@.len() ==> #[trigger] order@[k] < has_message@.len(),
    ensures
        r == first_with(order@, has_message@),
        r matches Some(id) ==> order@.contains(id) && has_message@[id as int],
        r is None ==> forall|k: int| 0 <= k < order@.len() ==> !has_message@[#[trigger] order@[k] as int],
{
    let mut i: usize = 0;
    assert(order@.skip(0) =~= order@);
    while i < order.len()
        invariant
            i <= order@.len(),
            forall|k: int| 0 <= k < order@.len() ==> #[trigger] order@[k] < has_message@.len(),
            first_with(order@, has_message@) == first_with(order@.skip(i as int), has_message@),
            forall|k: int| 0 <= k < i ==> !has_message@[#[trigger] order@[k] as int],
        decreases order@.len() - i,
    {
        let ghost rest = order@.skip(i as int);
        assert(rest[0] == order@[i as int]);
        assert(rest.drop_first() =~= order@.skip(i + 1));
        if has_message[order[i]] {
            return Some(order[i]);
        }
        i = i + 1;
    }
    assert(order@.skip(i as int) =~= Seq::<usize>::empty());
    None
}

} // verus!
