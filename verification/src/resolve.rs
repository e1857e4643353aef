//! Finding tasks, objectives and decompositions by a prefix.

use crate::ids::{hex_digit, hyphenated_id, simple_id, simple_text, Id};
use crate::maps;
use crate::model::{DecompositionRecordView, Store, StoreView};
use crate::text::{
    ascii_lower, ascii_lower_char, begins_with, fails_with, remove_char, starts_with, to_lower,
    unicode_lower, without_char,
};
use vstd::arithmetic::power::pow;
use vstd::prelude::*;
use vstd::string::*;

verus! {

/// The ids whose digits begin with a prefix.
pub open spec fn matching(ids: Seq<Id>, digits: Seq<char>) -> Seq<Id> {
    ids.filter(|id: Id| begins_with(simple_id(id), digits))
}

/// The only id whose digits begin with `digits`, or words that name the prefix as it was given.
pub open spec fn resolved(
    ids: Seq<Id>,
    digits: Seq<char>,
    prefix: Seq<char>,
    entity: Seq<char>,
) -> Result<Id, Seq<char>> {
    let found = matching(ids, digits);
    if found.len() == 0 {
        Err("no "@ + entity + " matches "@ + prefix)
    } else if found.len() == 1 {
        Ok(found[0])
    } else {
        Err("ambiguous prefix "@ + prefix)
    }
}

/// Whether a call gave the expected value or words.
pub open spec fn gives<T>(r: Result<T, String>, expected: Result<T, Seq<char>>) -> bool {
    match expected {
        Ok(value) => r == Ok::<T, String>(value),
        Err(words) => fails_with(r, words),
    }
}

/// The digits that a prefix asks for: hyphens do not matter, nor does the case.
pub open spec fn prefix_digits(prefix: Seq<char>) -> Seq<char> {
    unicode_lower(without_char(prefix, '-'))
}

/// The task that a prefix names.
pub open spec fn resolved_task(store: StoreView, prefix: Seq<char>) -> Result<Id, Seq<char>> {
    resolved(maps::in_order(store.tasks.dom()), prefix_digits(prefix), prefix, "task"@)
}

/// The objective that a prefix names.
pub open spec fn resolved_objective(store: StoreView, prefix: Seq<char>) -> Result<Id, Seq<char>> {
    resolved(maps::in_order(store.objectives.dom()), prefix_digits(prefix), prefix, "objective"@)
}

/// Finds the only id whose digits begin with `digits`.
pub fn resolve_id(ids: &Vec<Id>, digits: &str, prefix: &str, entity: &str) -> (r: Result<
    Id,
    String,
>)
    ensures
        gives(r, resolved(ids@, digits@, prefix@, entity@)),
{
    let mut found: Vec<Id> = Vec::new();
    let mut i: usize = 0;
    assert(ids@.take(0) =~= Seq::empty());
    reveal(Seq::filter);
    while i < ids.len()
        invariant
            i <= ids@.len(),
            found@ == matching(ids@.take(i as int), digits@),
        decreases ids@.len() - i,
    {
        reveal(Seq::filter);
        assert(ids@.take(i + 1).drop_last() =~= ids@.take(i as int));
        if starts_with(simple_text(ids[i]).as_str(), digits) {
            found.push(ids[i]);
        }
        i = i + 1;
    }
    assert(ids@.take(ids@.len() as int) =~= ids@);
    if found.len() == 0 {
        let mut words = "no ".to_owned();
        words.append(entity);
        words.append(" matches ");
        words.append(prefix);
        Err(words)
    } else if found.len() == 1 {
        Ok(found[0])
    } else {
        let mut words = "ambiguous prefix ".to_owned();
        words.append(prefix);
        Err(words)
    }
}

/// Finds the task that a prefix of its id names. The whole id, with or without hyphens,
/// always names its task.
pub fn resolve_task_id(store: &Store, prefix: &str) -> (r: Result<Id, String>)
    ensures
        gives(r, resolved_task(store@, prefix@)),
        r matches Ok(id) ==> store@.tasks.contains_key(id),
        forall|id: Id| #[trigger]
            store@.tasks.contains_key(id) && (prefix@ == simple_id(id) || prefix@ == hyphenated_id(
                id,
            )) ==> r == Ok::<Id, String>(id),
{
    let plain = remove_char(prefix, '-');
    let digits = to_lower(plain.as_str());
    let ids = store.task_ids();
    proof {
        assert forall|id: Id| #[trigger]
            store@.tasks.contains_key(id) && (prefix@ == simple_id(id) || prefix@ == hyphenated_id(
                id,
            )) implies resolved_task(store@, prefix@) == Ok::<Id, Seq<char>>(id) by {
            whole_id_is_its_digits(id, prefix@);
            assert(digits@ == simple_id(id));
            only_itself_matches(ids@, id);
        }
        if matching(ids@, digits@).len() == 1 {
            ids@.lemma_filter_contains_rev(
                |id: Id| begins_with(simple_id(id), digits@),
                matching(ids@, digits@)[0],
            );
        }
    }
    resolve_id(&ids, digits.as_str(), prefix, "task")
}

/// Finds the objective that a prefix of its id names.
pub fn resolve_objective_id(store: &Store, prefix: &str) -> (r: Result<Id, String>)
    ensures
        gives(r, resolved_objective(store@, prefix@)),
        r matches Ok(id) ==> store@.objectives.contains_key(id),
        forall|id: Id| #[trigger]
            store@.objectives.contains_key(id) && (prefix@ == simple_id(id) || prefix@
                == hyphenated_id(id)) ==> r == Ok::<Id, String>(id),
{
    let plain = remove_char(prefix, '-');
    let digits = to_lower(plain.as_str());
    let ids = maps::keys_of(&store.objectives);
    proof {
        assert(store.objectives@.dom() =~= store@.objectives.dom());
        assert forall|id: Id| #[trigger]
            store@.objectives.contains_key(id) == ids@.contains(id) by {
            assert(ids@.to_set().contains(id) == ids@.contains(id));
        }
        assert forall|id: Id| #[trigger]
            store@.objectives.contains_key(id) && (prefix@ == simple_id(id) || prefix@
                == hyphenated_id(id)) implies resolved_objective(store@, prefix@) == Ok::<
            Id,
            Seq<char>,
        >(id) by {
            whole_id_is_its_digits(id, prefix@);
            assert(digits@ == simple_id(id));
            only_itself_matches(ids@, id);
        }
        if matching(ids@, digits@).len() == 1 {
            ids@.lemma_filter_contains_rev(
                |id: Id| begins_with(simple_id(id), digits@),
                matching(ids@, digits@)[0],
            );
        }
    }
    resolve_id(&ids, digits.as_str(), prefix, "objective")
}

// ---- Whole ids ----

proof fn digit_is_plain(value: int)
    requires
        0 <= value < 16,
    ensures
        hex_digit(value) != '-',
        hex_digit(value) as u32 <= 127,
        ascii_lower_char(hex_digit(value)) == hex_digit(value),
{
}

proof fn digits_differ(a: int, b: int)
    requires
        0 <= a < 16,
        0 <= b < 16,
        hex_digit(a) == hex_digit(b),
    ensures
        a == b,
{
}

/// Ids with the same digits are the same.
proof fn digits_tell_ids_apart(a: Id, b: Id)
    requires
        simple_id(a) == simple_id(b),
    ensures
        a == b,
{
    same_leading_part(a, b, 32);
    assert(pow(16, 0) == 1) by {
        reveal(pow);
    }
}

proof fn same_leading_part(a: Id, b: Id, n: nat)
    requires
        simple_id(a) == simple_id(b),
        n <= 32,
    ensures
        a as int / pow(16, (32 - n) as nat) == b as int / pow(16, (32 - n) as nat),
    decreases n,
{
    if n == 0 {
        assert(pow(16, 32) == 0x1_0000_0000_0000_0000_0000_0000_0000_0000) by {
            vstd::arithmetic::power::lemma_pow_adds(16, 16, 16);
            assert(pow(16, 16) == 0x1_0000_0000_0000_0000) by {
                reveal(pow);
                reveal_with_fuel(pow, 17);
            }
        }
        assert(a as int / pow(16, 32) == 0);
        assert(b as int / pow(16, 32) == 0);
    } else {
        same_leading_part(a, b, (n - 1) as nat);
        let d = pow(16, (32 - n) as nat);
        let big = pow(16, (33 - n) as nat);
        vstd::arithmetic::power::lemma_pow_positive(16, (32 - n) as nat);
        assert(big == d * 16) by {
            vstd::arithmetic::power::lemma_pow_adds(16, (32 - n) as nat, 1);
            vstd::arithmetic::power::lemma_pow1(16);
        }
        vstd::arithmetic::div_mod::lemma_div_denominator(a as int, d, 16);
        vstd::arithmetic::div_mod::lemma_div_denominator(b as int, d, 16);
        let x = a as int / d;
        let y = b as int / d;
        assert(x / 16 == a as int / big);
        assert(y / 16 == b as int / big);
        let i = n - 1;
        assert(31 - i == 32 - n);
        assert(simple_id(a)[i] == hex_digit(x % 16));
        assert(simple_id(b)[i] == hex_digit(y % 16));
        digits_differ(x % 16, y % 16);
    }
}

/// A whole id, with or without hyphens, asks for its own digits.
proof fn whole_id_is_its_digits(id: Id, prefix: Seq<char>)
    requires
        prefix == simple_id(id) || prefix == hyphenated_id(id),
    ensures
        without_char(prefix, '-') == simple_id(id),
        ascii_lower(simple_id(id)) == simple_id(id),
        forall|i: int| 0 <= i < 32 ==> (#[trigger] simple_id(id)[i]) as u32 <= 127,
{
    let digits = simple_id(id);
    let keep = |x: char| x != '-';
    assert forall|i: int| 0 <= i < 32 implies (#[trigger] digits[i]) != '-' && digits[i] as u32
        <= 127 && ascii_lower_char(digits[i]) == digits[i] by {
        digit_is_plain((id as int / pow(16, (31 - i) as nat)) % 16);
    }
    assert(ascii_lower(digits) =~= digits);
    let a = digits.subrange(0, 8);
    let b = digits.subrange(8, 12);
    let c = digits.subrange(12, 16);
    let d = digits.subrange(16, 20);
    let e = digits.subrange(20, 32);
    if prefix == digits {
        all_kept(digits);
    } else {
        all_kept(a);
        all_kept(b);
        all_kept(c);
        all_kept(d);
        all_kept(e);
        hyphen_dropped(a);
        hyphen_dropped(b);
        hyphen_dropped(c);
        hyphen_dropped(d);
        Seq::filter_distributes_over_add(a.push('-'), b.push('-'), keep);
        Seq::filter_distributes_over_add(a.push('-') + b.push('-'), c.push('-'), keep);
        Seq::filter_distributes_over_add(
            a.push('-') + b.push('-') + c.push('-'),
            d.push('-'),
            keep,
        );
        Seq::filter_distributes_over_add(
            a.push('-') + b.push('-') + c.push('-') + d.push('-'),
            e,
            keep,
        );
        assert(a + b + c + d + e =~= digits);
    }
}

proof fn all_kept(s: Seq<char>)
    requires
        forall|i: int| 0 <= i < s.len() ==> #[trigger] s[i] != '-',
    ensures
        without_char(s, '-') == s,
    decreases s.len(),
{
    reveal(Seq::filter);
    if s.len() > 0 {
        all_kept(s.drop_last());
        assert(s =~= s.drop_last().push(s.last()));
    }
}

proof fn hyphen_dropped(s: Seq<char>)
    ensures
        without_char(s.push('-'), '-') == without_char(s, '-'),
{
    reveal(Seq::filter);
    assert(s.push('-').drop_last() =~= s);
}

/// Of distinct ids only one has the digits of a whole id.
proof fn only_itself_matches(ids: Seq<Id>, id: Id)
    requires
        maps::increasing(ids),
        ids.contains(id),
    ensures
        matching(ids, simple_id(id)) == seq![id],
{
    let pred = |x: Id| begins_with(simple_id(x), simple_id(id));
    assert forall|x: Id| #[trigger] pred(x) implies x == id by {
        assert(simple_id(x).take(32) =~= simple_id(x));
        digits_tell_ids_apart(x, id);
    }
    assert(pred(id)) by {
        assert(simple_id(id).take(32) =~= simple_id(id));
    }
    let k = choose|k: int| 0 <= k < ids.len() && ids[k] == id;
    let front = ids.take(k);
    let back = ids.skip(k + 1);
    assert(ids =~= front.push(id) + back);
    none_kept(front, pred);
    none_kept(back, pred);
    Seq::filter_distributes_over_add(front.push(id), back, pred);
    reveal(Seq::filter);
    assert(front.push(id).drop_last() =~= front);
    assert(front.push(id).filter(pred) =~= seq![id]);
    assert(matching(ids, simple_id(id)) =~= seq![id]);
}

proof fn none_kept(s: Seq<Id>, pred: spec_fn(Id) -> bool)
    requires
        forall|i: int| 0 <= i < s.len() ==> !pred(#[trigger] s[i]),
    ensures
        s.filter(pred) == Seq::<Id>::empty(),
    decreases s.len(),
{
    reveal(Seq::filter);
    if s.len() > 0 {
        none_kept(s.drop_last(), pred);
    }
}

// ---- Decompositions ----

/// Whether a record's parent has an id or a title that begins as asked.
pub open spec fn record_matches(
    record: DecompositionRecordView,
    title_prefix: Seq<char>,
    lowered_title: Seq<char>,
) -> bool {
    begins_with(simple_id(record.parent.id), without_char(title_prefix, '-')) || begins_with(
        lowered_title,
        title_prefix,
    )
}

/// The positions among the first `n` records of those that match.
pub open spec fn matching_records(
    records: Seq<DecompositionRecordView>,
    title_prefix: Seq<char>,
    n: int,
) -> Seq<int>
    decreases n,
{
    if n <= 0 {
        Seq::empty()
    } else {
        let before = matching_records(records, title_prefix, n - 1);
        if record_matches(
            records[n - 1],
            title_prefix,
            unicode_lower(records[n - 1].parent.title),
        ) {
            before.push(n - 1)
        } else {
            before
        }
    }
}

/// The record that a prefix names; without one, the most recent.
pub open spec fn resolved_decomposition(
    records: Seq<DecompositionRecordView>,
    prefix: Option<Seq<char>>,
) -> Result<int, Seq<char>> {
    match prefix {
        None => if records.len() == 0 {
            Err("no decomposition to undo"@)
        } else {
            Ok(records.len() - 1)
        },
        Some(prefix) => {
            let found = matching_records(records, unicode_lower(prefix), records.len() as int);
            if found.len() == 0 {
                Err("no decomposition matches "@ + prefix)
            } else if found.len() == 1 {
                Ok(found[0])
            } else {
                Err("ambiguous decomposition prefix "@ + prefix)
            }
        },
    }
}

/// Matches the ids of retired parents (hyphens optional) or prefixes of their titles,
/// whatever the case. Without a prefix the last record is the most recent.
pub fn resolve_decomposition_index(store: &Store, prefix: Option<&str>) -> (r: Result<
    usize,
    String,
>)
    ensures
        match resolved_decomposition(
            store@.decomposition_history,
            match prefix {
                Some(p) => Some(p@),
                None => None,
            },
        ) {
            Ok(index) => r is Ok && r->Ok_0 == index && 0 <= index
                < store@.decomposition_history.len(),
            Err(words) => fails_with(r, words),
        },
{
    let n: usize = store.decomposition_history.len();
    let prefix: &str = match prefix {
        Some(p) => p,
        None => {
            if n == 0 {
                return Err("no decomposition to undo".to_owned());
            }
            return Ok(n - 1);
        },
    };
    let title_prefix = to_lower(prefix);
    let id_prefix = remove_char(title_prefix.as_str(), '-');
    let ghost records = store@.decomposition_history;
    let mut found: Vec<usize> = Vec::new();
    let mut i: usize = 0;
    while i < n
        invariant
            i <= n,
            n == store.decomposition_history@.len(),
            records == store@.decomposition_history,
            id_prefix@ == without_char(title_prefix@, '-'),
            found@.len() == matching_records(records, title_prefix@, i as int).len(),
            forall|k: int|
                0 <= k < found@.len() ==> (#[trigger] found@[k]) < i && found@[k]
                    == matching_records(records, title_prefix@, i as int)[k],
        decreases n - i,
    {
        let parent = &store.decomposition_history[i].parent;
        assert(records[i as int] == store.decomposition_history@[i as int]@);
        let by_id: bool = starts_with(simple_text(parent.id).as_str(), id_prefix.as_str());
        let by_title: bool = starts_with(
            to_lower(parent.title.as_str()).as_str(),
            title_prefix.as_str(),
        );
        if by_id || by_title {
            found.push(i);
        }
        i = i + 1;
    }
    if found.len() == 0 {
        let mut words = "no decomposition matches ".to_owned();
        words.append(prefix);
        Err(words)
    } else if found.len() == 1 {
        Ok(found[0])
    } else {
        let mut words = "ambiguous decomposition prefix ".to_owned();
        words.append(prefix);
        Err(words)
    }
}

} // verus!
