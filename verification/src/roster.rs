//! Which characters each account has, in slot order, and where each was last
//! seen.
//!
//! A character exists from the moment it is created; it has a saved record
//! only once something has written one (a logout, or a boot that read one
//! out of the store). The two are different facts, so an entry carries an
//! `Option`: `None` is "nothing recorded yet", never "no such character".
//!
//! The order within an account is the slot order the client indexes: the
//! character list is built from this sequence, a slot number names a position
//! in it, and deleting shifts the rest down.
use vstd::prelude::*;
use crate::names::{lowercase_of, same_name, to_lowercase};
use crate::records::CharacterRecord;

verus! {

/// One character as the roster knows it: its name as created, and what was
/// last recorded about it.
pub type EntryView = (Seq<char>, Option<CharacterRecord>);

/// One account: its folded name, and its characters in slot order.
pub type AccountView = (Seq<char>, Seq<EntryView>);

/// What the character list offers for one character.
#[derive(Clone, Debug, PartialEq, Eq)]
pub struct CharacterEntry {
    pub name: String,
}

struct Enrolled {
    name: String,
    saved: Option<CharacterRecord>,
}

struct AccountList {
    key: String,
    characters: Vec<Enrolled>,
}

/// Every account's characters.
pub struct Roster {
    accounts: Vec<AccountList>,
}

// ---------------------------------------------------------------------------
// The model.

/// The position of the account with this folded name, or -1.
pub open spec fn account_at(v: Seq<AccountView>, key: Seq<char>) -> int {
    if exists|i: int| 0 <= i < v.len() && #[trigger] v[i].0 == key {
        choose|i: int| 0 <= i < v.len() && #[trigger] v[i].0 == key
    } else {
        -1
    }
}

/// The characters of the account with this folded name, empty if it has none.
pub open spec fn list_in(v: Seq<AccountView>, key: Seq<char>) -> Seq<EntryView> {
    let a = account_at(v, key);
    if a >= 0 {
        v[a].1
    } else {
        Seq::empty()
    }
}

/// The slot of the character with this name, folded, or -1.
pub open spec fn slot_of(list: Seq<EntryView>, name: Seq<char>) -> int {
    if exists|i: int| 0 <= i < list.len() && same_name(#[trigger] list[i].0, name) {
        choose|i: int| 0 <= i < list.len() && same_name(#[trigger] list[i].0, name)
    } else {
        -1
    }
}

pub open spec fn keys_distinct(v: Seq<AccountView>) -> bool {
    forall|i: int, j: int|
        0 <= i < v.len() && 0 <= j < v.len() && i != j ==> #[trigger] v[i].0 != #[trigger] v[j].0
}

pub open spec fn names_distinct(list: Seq<EntryView>) -> bool {
    forall|i: int, j: int|
        0 <= i < list.len() && 0 <= j < list.len() && i != j ==> !same_name(
            #[trigger] list[i].0,
            #[trigger] list[j].0,
        )
}

/// A saved record is always filed under its own account and its own name.
pub open spec fn records_agree(key: Seq<char>, list: Seq<EntryView>) -> bool {
    forall|i: int|
        0 <= i < list.len() && (#[trigger] list[i]).1 is Some ==> {
            &&& list[i].1->0.name@ == list[i].0
            &&& lowercase_of(list[i].1->0.account@) == key
        }
}

/// Accounts are found by one folded name each, a name appears at most once
/// per account, and every record sits under the account and name it carries.
pub open spec fn roster_wf(v: Seq<AccountView>) -> bool {
    &&& keys_distinct(v)
    &&& forall|i: int| 0 <= i < v.len() ==> names_distinct(#[trigger] v[i].1)
    &&& forall|i: int| 0 <= i < v.len() ==> records_agree(v[i].0, #[trigger] v[i].1)
}

/// The roster after putting a character on an account's list, if it is not on
/// it already. An entry that is there is not touched at all.
pub open spec fn enrolled(v: Seq<AccountView>, account: Seq<char>, name: Seq<char>) -> Seq<
    AccountView,
> {
    let key = lowercase_of(account);
    let a = account_at(v, key);
    if a < 0 {
        v.push((key, seq![(name, None::<CharacterRecord>)]))
    } else if slot_of(v[a].1, name) >= 0 {
        v
    } else {
        v.update(a, (key, v[a].1.push((name, None::<CharacterRecord>))))
    }
}

/// The roster after filing a record: the character is enrolled if it was not,
/// then its entry takes the record and the record's spelling of the name.
pub open spec fn remembered(v: Seq<AccountView>, record: CharacterRecord) -> Seq<AccountView> {
    let v1 = enrolled(v, record.account@, record.name@);
    let key = lowercase_of(record.account@);
    let a = account_at(v1, key);
    let list = v1[a].1;
    let s = slot_of(list, record.name@);
    v1.update(a, (key, list.update(s, (record.name@, Some(record)))))
}

/// What is recorded about a character, or `None` if it is not on the list or
/// nothing has been recorded.
pub open spec fn lookup(v: Seq<AccountView>, account: Seq<char>, name: Seq<char>) -> Option<
    CharacterRecord,
> {
    let list = list_in(v, lowercase_of(account));
    let s = slot_of(list, name);
    if s >= 0 {
        list[s].1
    } else {
        None
    }
}

/// The roster after taking a character off its account's list.
pub open spec fn forgotten(v: Seq<AccountView>, account: Seq<char>, name: Seq<char>) -> Seq<
    AccountView,
> {
    let key = lowercase_of(account);
    let a = account_at(v, key);
    if a < 0 {
        v
    } else {
        let s = slot_of(v[a].1, name);
        if s < 0 {
            v
        } else {
            v.update(a, (key, v[a].1.remove(s)))
        }
    }
}

/// An account's character names in slot order.
pub open spec fn names_in(v: Seq<AccountView>, account: Seq<char>) -> Seq<Seq<char>> {
    list_in(v, lowercase_of(account)).map_values(|e: EntryView| e.0)
}

/// How many entries of one list carry a record.
pub open spec fn saved_in(list: Seq<EntryView>) -> nat
    decreases list.len(),
{
    if list.len() == 0 {
        0
    } else {
        saved_in(list.drop_last()) + if list.last().1 is Some {
            1nat
        } else {
            0nat
        }
    }
}

/// How many characters, over every account, carry a record.
pub open spec fn saved_count(v: Seq<AccountView>) -> nat
    decreases v.len(),
{
    if v.len() == 0 {
        0
    } else {
        saved_count(v.drop_last()) + saved_in(v.last().1)
    }
}

// ---------------------------------------------------------------------------
// Facts about the model.

pub proof fn lemma_account_at_found(v: Seq<AccountView>, key: Seq<char>, i: int)
    requires
        keys_distinct(v),
        0 <= i < v.len(),
        v[i].0 == key,
    ensures
        account_at(v, key) == i,
{
    assert(exists|k: int| 0 <= k < v.len() && #[trigger] v[k].0 == key);
}

pub proof fn lemma_account_at_missing(v: Seq<AccountView>, key: Seq<char>)
    requires
        forall|i: int| 0 <= i < v.len() ==> #[trigger] v[i].0 != key,
    ensures
        account_at(v, key) == -1,
{
}

pub proof fn lemma_account_at_range(v: Seq<AccountView>, key: Seq<char>)
    ensures
        -1 <= account_at(v, key) < v.len(),
        account_at(v, key) >= 0 ==> v[account_at(v, key)].0 == key,
{
}

pub proof fn lemma_slot_of_found(list: Seq<EntryView>, name: Seq<char>, i: int)
    requires
        names_distinct(list),
        0 <= i < list.len(),
        same_name(list[i].0, name),
    ensures
        slot_of(list, name) == i,
{
    assert(exists|k: int| 0 <= k < list.len() && same_name(#[trigger] list[k].0, name));
    let j = slot_of(list, name);
    if j != i {
        assert(same_name(list[i].0, list[j].0));
    }
}

pub proof fn lemma_slot_of_range(list: Seq<EntryView>, name: Seq<char>)
    ensures
        -1 <= slot_of(list, name) < list.len(),
        slot_of(list, name) >= 0 ==> same_name(list[slot_of(list, name)].0, name),
        slot_of(list, name) < 0 ==> forall|i: int|
            0 <= i < list.len() ==> !same_name(#[trigger] list[i].0, name),
{
}

pub proof fn lemma_enrolled_wf(v: Seq<AccountView>, account: Seq<char>, name: Seq<char>)
    requires
        roster_wf(v),
    ensures
        roster_wf(enrolled(v, account, name)),
        account_at(enrolled(v, account, name), lowercase_of(account)) >= 0,
        slot_of(list_in(enrolled(v, account, name), lowercase_of(account)), name) >= 0,
{
    let key = lowercase_of(account);
    let a = account_at(v, key);
    lemma_account_at_range(v, key);
    let w = enrolled(v, account, name);
    if a < 0 {
        let fresh = seq![(name, None::<CharacterRecord>)];
        assert forall|i: int| 0 <= i < w.len() implies names_distinct(#[trigger] w[i].1) by {
            if i < v.len() {
                assert(w[i] == v[i]);
            }
        }
        assert forall|i: int| 0 <= i < w.len() implies records_agree(w[i].0, #[trigger] w[i].1) by {
            if i < v.len() {
                assert(w[i] == v[i]);
            }
        }
        lemma_account_at_found(w, key, v.len() as int);
        lemma_slot_of_found(w[v.len() as int].1, name, 0);
    } else if slot_of(v[a].1, name) >= 0 {
        lemma_slot_of_range(v[a].1, name);
    } else {
        lemma_slot_of_range(v[a].1, name);
        let list = v[a].1.push((name, None::<CharacterRecord>));
        assert(names_distinct(list)) by {
            assert forall|i: int, j: int|
                0 <= i < list.len() && 0 <= j < list.len() && i != j implies !same_name(
                #[trigger] list[i].0,
                #[trigger] list[j].0,
            ) by {
                if i < v[a].1.len() && j < v[a].1.len() {
                    assert(list[i] == v[a].1[i] && list[j] == v[a].1[j]);
                } else if i < v[a].1.len() {
                    assert(list[i] == v[a].1[i]);
                    assert(!same_name(v[a].1[i].0, name));
                } else {
                    assert(list[j] == v[a].1[j]);
                    assert(!same_name(v[a].1[j].0, name));
                }
            }
        }
        assert(records_agree(key, list)) by {
            assert forall|i: int| 0 <= i < list.len() && (#[trigger] list[i]).1 is Some implies {
                &&& list[i].1->0.name@ == list[i].0
                &&& lowercase_of(list[i].1->0.account@) == key
            } by {
                assert(i < v[a].1.len());
                assert(list[i] == v[a].1[i]);
                assert(records_agree(v[a].0, v[a].1));
            }
        }
        assert(w[a] == (key, list));
        assert forall|i: int| 0 <= i < w.len() implies names_distinct(#[trigger] w[i].1) by {
            if i != a {
                assert(w[i] == v[i]);
            }
        }
        assert forall|i: int| 0 <= i < w.len() implies records_agree(w[i].0, #[trigger] w[i].1) by {
            if i != a {
                assert(w[i] == v[i]);
            }
        }
        assert(keys_distinct(w)) by {
            assert forall|i: int, j: int|
                0 <= i < w.len() && 0 <= j < w.len() && i != j implies #[trigger] w[i].0
                != #[trigger] w[j].0 by {
                assert(v[i].0 != v[j].0);
            }
        }
        lemma_account_at_found(w, key, a);
        lemma_slot_of_found(list, name, v[a].1.len() as int);
    }
}

pub proof fn lemma_remembered_wf(v: Seq<AccountView>, record: CharacterRecord)
    requires
        roster_wf(v),
    ensures
        roster_wf(remembered(v, record)),
{
    lemma_enrolled_wf(v, record.account@, record.name@);
    let v1 = enrolled(v, record.account@, record.name@);
    let key = lowercase_of(record.account@);
    let a = account_at(v1, key);
    lemma_account_at_range(v1, key);
    let list = v1[a].1;
    let s = slot_of(list, record.name@);
    lemma_slot_of_range(list, record.name@);
    let list2 = list.update(s, (record.name@, Some(record)));
    let w = remembered(v, record);
    assert(w[a] == (key, list2));
    assert(names_distinct(list2)) by {
        assert forall|i: int, j: int|
            0 <= i < list2.len() && 0 <= j < list2.len() && i != j implies !same_name(
            #[trigger] list2[i].0,
            #[trigger] list2[j].0,
        ) by {
            assert(names_distinct(v1[a].1));
            if i == s {
                assert(!same_name(list[s].0, list[j].0));
            } else if j == s {
                assert(!same_name(list[i].0, list[s].0));
            } else {
                assert(!same_name(list[i].0, list[j].0));
            }
        }
    }
    assert(records_agree(key, list2)) by {
        assert(records_agree(v1[a].0, v1[a].1));
    }
    assert forall|i: int| 0 <= i < w.len() implies names_distinct(#[trigger] w[i].1) by {
        if i != a {
            assert(w[i] == v1[i]);
        }
    }
    assert forall|i: int| 0 <= i < w.len() implies records_agree(w[i].0, #[trigger] w[i].1) by {
        if i != a {
            assert(w[i] == v1[i]);
        }
    }
    assert(keys_distinct(w)) by {
        assert forall|i: int, j: int|
            0 <= i < w.len() && 0 <= j < w.len() && i != j implies #[trigger] w[i].0
            != #[trigger] w[j].0 by {
            assert(v1[i].0 != v1[j].0);
        }
    }
}

pub proof fn lemma_forgotten_wf(v: Seq<AccountView>, account: Seq<char>, name: Seq<char>)
    requires
        roster_wf(v),
    ensures
        roster_wf(forgotten(v, account, name)),
{
    let key = lowercase_of(account);
    let a = account_at(v, key);
    lemma_account_at_range(v, key);
    if a >= 0 {
        let s = slot_of(v[a].1, name);
        lemma_slot_of_range(v[a].1, name);
        if s >= 0 {
            let old_list = v[a].1;
            let list = old_list.remove(s);
            let w = forgotten(v, account, name);
            assert(w[a] == (key, list));
            assert(names_distinct(list)) by {
                assert(names_distinct(old_list));
                assert forall|i: int, j: int|
                    0 <= i < list.len() && 0 <= j < list.len() && i != j implies !same_name(
                    #[trigger] list[i].0,
                    #[trigger] list[j].0,
                ) by {
                    let oi = if i < s { i } else { i + 1 };
                    let oj = if j < s { j } else { j + 1 };
                    assert(list[i] == old_list[oi]);
                    assert(list[j] == old_list[oj]);
                }
            }
            assert(records_agree(key, list)) by {
                assert(records_agree(v[a].0, old_list));
                assert forall|i: int| 0 <= i < list.len() && (#[trigger] list[i]).1 is Some implies {
                    &&& list[i].1->0.name@ == list[i].0
                    &&& lowercase_of(list[i].1->0.account@) == key
                } by {
                    let oi = if i < s { i } else { i + 1 };
                    assert(list[i] == old_list[oi]);
                }
            }
            assert forall|i: int| 0 <= i < w.len() implies names_distinct(#[trigger] w[i].1) by {
                if i != a {
                    assert(w[i] == v[i]);
                }
            }
            assert forall|i: int| 0 <= i < w.len() implies records_agree(
                w[i].0,
                #[trigger] w[i].1,
            ) by {
                if i != a {
                    assert(w[i] == v[i]);
                }
            }
            assert(keys_distinct(w)) by {
                assert forall|i: int, j: int|
                    0 <= i < w.len() && 0 <= j < w.len() && i != j implies #[trigger] w[i].0
                    != #[trigger] w[j].0 by {
                    assert(v[i].0 != v[j].0);
                }
            }
        }
    }
}


proof fn lemma_slot_exists(list: Seq<EntryView>, name: Seq<char>, other: Seq<char>)
    requires
        slot_of(list, name) >= 0,
        same_name(name, other),
    ensures
        slot_of(list, other) >= 0,
{
    lemma_slot_of_range(list, name);
    let s = slot_of(list, name);
    assert(same_name(list[s].0, other));
}

/// Another account's position is unaffected by changing one account in place.
proof fn lemma_account_at_after_update(
    v: Seq<AccountView>,
    a: int,
    entry: AccountView,
    key: Seq<char>,
)
    requires
        keys_distinct(v),
        0 <= a < v.len(),
        entry.0 == v[a].0,
    ensures
        keys_distinct(v.update(a, entry)),
        account_at(v.update(a, entry), key) == account_at(v, key),
{
    let w = v.update(a, entry);
    assert(keys_distinct(w)) by {
        assert forall|i: int, j: int|
            0 <= i < w.len() && 0 <= j < w.len() && i != j implies #[trigger] w[i].0
            != #[trigger] w[j].0 by {
            assert(v[i].0 != v[j].0);
        }
    }
    lemma_account_at_range(v, key);
    let k = account_at(v, key);
    if k >= 0 {
        lemma_account_at_found(w, key, k);
    } else {
        assert forall|i: int| 0 <= i < w.len() implies #[trigger] w[i].0 != key by {
            if w[i].0 == key {
                assert(v[i].0 == key);
                lemma_account_at_found(v, key, i);
            }
        }
        lemma_account_at_missing(w, key);
    }
}

/// Another account's position is unaffected by adding a new account.
proof fn lemma_account_at_after_push(v: Seq<AccountView>, entry: AccountView, key: Seq<char>)
    requires
        keys_distinct(v),
        account_at(v, entry.0) < 0,
        key != entry.0,
    ensures
        account_at(v.push(entry), key) == account_at(v, key),
{
    let w = v.push(entry);
    lemma_account_at_range(v, key);
    lemma_account_at_range(v, entry.0);
    assert(keys_distinct(w)) by {
        assert forall|i: int, j: int|
            0 <= i < w.len() && 0 <= j < w.len() && i != j implies #[trigger] w[i].0
            != #[trigger] w[j].0 by {
            if i < v.len() && j < v.len() {
                assert(v[i].0 != v[j].0);
            } else if i < v.len() {
                if v[i].0 == entry.0 {
                    lemma_account_at_found(v, entry.0, i);
                }
            } else {
                if v[j].0 == entry.0 {
                    lemma_account_at_found(v, entry.0, j);
                }
            }
        }
    }
    let k = account_at(v, key);
    if k >= 0 {
        lemma_account_at_found(w, key, k);
    } else {
        assert forall|i: int| 0 <= i < w.len() implies #[trigger] w[i].0 != key by {
            if i < v.len() && w[i].0 == key {
                lemma_account_at_found(v, key, i);
            }
        }
        lemma_account_at_missing(w, key);
    }
}

/// Enrolling a character twice, however either call spells the account or
/// the name, leaves the roster as enrolling it once.
pub proof fn lemma_enrol_is_idempotent(
    v: Seq<AccountView>,
    account: Seq<char>,
    name: Seq<char>,
    again_account: Seq<char>,
    again_name: Seq<char>,
)
    requires
        roster_wf(v),
        lowercase_of(account) == lowercase_of(again_account),
        same_name(name, again_name),
    ensures
        enrolled(enrolled(v, account, name), again_account, again_name) == enrolled(
            v,
            account,
            name,
        ),
{
    lemma_enrolled_wf(v, account, name);
    let w = enrolled(v, account, name);
    let key = lowercase_of(account);
    lemma_slot_exists(list_in(w, key), name, again_name);
}

/// After a record is filed, looking the character up, under any spelling of
/// its account and name, finds that record.
pub proof fn lemma_remember_then_lookup(
    v: Seq<AccountView>,
    record: CharacterRecord,
    account: Seq<char>,
    name: Seq<char>,
)
    requires
        roster_wf(v),
        lowercase_of(account) == lowercase_of(record.account@),
        same_name(name, record.name@),
    ensures
        lookup(remembered(v, record), account, name) == Some(record),
{
    lemma_enrolled_wf(v, record.account@, record.name@);
    lemma_remembered_wf(v, record);
    let v1 = enrolled(v, record.account@, record.name@);
    let key = lowercase_of(record.account@);
    let a = account_at(v1, key);
    lemma_account_at_range(v1, key);
    let list = v1[a].1;
    let s = slot_of(list, record.name@);
    lemma_slot_of_range(list, record.name@);
    let w = remembered(v, record);
    assert(w[a].0 == key);
    lemma_account_at_found(w, key, a);
    let list2 = w[a].1;
    assert(list2[s] == (record.name@, Some(record)));
    assert(same_name(list2[s].0, name));
    lemma_slot_of_found(list2, name, s);
}

/// Filing a record under one account leaves what every other account has
/// recorded as it was: two accounts may hold the same character name.
pub proof fn lemma_remember_keeps_other_accounts(
    v: Seq<AccountView>,
    record: CharacterRecord,
    account: Seq<char>,
    name: Seq<char>,
)
    requires
        roster_wf(v),
        lowercase_of(account) != lowercase_of(record.account@),
    ensures
        lookup(remembered(v, record), account, name) == lookup(v, account, name),
{
    let key = lowercase_of(record.account@);
    let other = lowercase_of(account);
    lemma_enrolled_wf(v, record.account@, record.name@);
    let v1 = enrolled(v, record.account@, record.name@);
    let a0 = account_at(v, key);
    lemma_account_at_range(v, key);
    if a0 < 0 {
        lemma_account_at_after_push(v, (key, seq![(record.name@, None::<CharacterRecord>)]), other);
    } else if slot_of(v[a0].1, record.name@) >= 0 {
    } else {
        lemma_account_at_after_update(
            v,
            a0,
            (key, v[a0].1.push((record.name@, None::<CharacterRecord>))),
            other,
        );
    }
    let a = account_at(v1, key);
    lemma_account_at_range(v1, key);
    let list = v1[a].1;
    let s = slot_of(list, record.name@);
    lemma_account_at_after_update(
        v1,
        a,
        (key, list.update(s, (record.name@, Some(record)))),
        other,
    );
}

/// Enrolling never changes what is recorded about any character: a late
/// enrolment does not wipe what was known.
pub proof fn lemma_enrol_keeps_records(
    v: Seq<AccountView>,
    account: Seq<char>,
    name: Seq<char>,
    any_account: Seq<char>,
    any_name: Seq<char>,
)
    requires
        roster_wf(v),
    ensures
        lookup(enrolled(v, account, name), any_account, any_name) == lookup(
            v,
            any_account,
            any_name,
        ),
{
    let key = lowercase_of(account);
    let other = lowercase_of(any_account);
    lemma_enrolled_wf(v, account, name);
    let w = enrolled(v, account, name);
    let a = account_at(v, key);
    lemma_account_at_range(v, key);
    if a < 0 {
        if other != key {
            lemma_account_at_after_push(v, (key, seq![(name, None::<CharacterRecord>)]), other);
        } else {
            lemma_account_at_found(w, key, v.len() as int);
            let list = w[v.len() as int].1;
            lemma_slot_of_range(list, any_name);
            assert(list[0].1 is None);
        }
    } else if slot_of(v[a].1, name) >= 0 {
    } else {
        let old_list = v[a].1;
        let list = old_list.push((name, None::<CharacterRecord>));
        lemma_account_at_after_update(v, a, (key, list), other);
        if other == key {
            lemma_account_at_found(v, key, a);
            lemma_slot_of_range(old_list, any_name);
            lemma_slot_of_range(list, any_name);
            lemma_slot_of_range(old_list, name);
            let s_old = slot_of(old_list, any_name);
            let s_new = slot_of(list, any_name);
            assert(names_distinct(w[a].1));
            if s_new >= 0 {
                if s_new < old_list.len() {
                    assert(list[s_new] == old_list[s_new]);
                    assert(names_distinct(old_list));
                    lemma_slot_of_found(old_list, any_name, s_new);
                } else {
                    assert(list[s_new].1 is None);
                    if s_old >= 0 {
                        assert(same_name(old_list[s_old].0, name));
                    }
                }
            } else if s_old >= 0 {
                assert(list[s_old] == old_list[s_old]);
                assert(same_name(list[s_old].0, any_name));
            }
        }
    }
}

/// Whichever of enrolling a character and filing its record happens first,
/// the roster ends the same: the record survives, and the character keeps the
/// spelling the record carries.
pub proof fn lemma_boot_order_decides_nothing(
    v: Seq<AccountView>,
    record: CharacterRecord,
    account: Seq<char>,
    name: Seq<char>,
)
    requires
        roster_wf(v),
        lowercase_of(account) == lowercase_of(record.account@),
        same_name(name, record.name@),
    ensures
        remembered(enrolled(v, account, name), record) == enrolled(
            remembered(v, record),
            account,
            name,
        ),
{
    let key = lowercase_of(account);
    // The store first: the late enrolment finds the character and does nothing.
    lemma_remembered_wf(v, record);
    let r = remembered(v, record);
    lemma_remember_then_lookup(v, record, account, name);
    lemma_enrolled_wf(v, record.account@, record.name@);
    let v1 = enrolled(v, record.account@, record.name@);
    let a1 = account_at(v1, key);
    lemma_account_at_range(v1, key);
    let s1 = slot_of(v1[a1].1, record.name@);
    lemma_slot_of_range(v1[a1].1, record.name@);
    assert(r[a1].0 == key);
    lemma_remembered_wf(v, record);
    lemma_account_at_found(r, key, a1);
    let rl = r[a1].1;
    assert(rl[s1].0 == record.name@);
    lemma_slot_of_found(rl, name, s1);
    assert(enrolled(r, account, name) == r);
    // The configuration first: the record finds the enrolled character.
    lemma_enrolled_wf(v, account, name);
    let u = enrolled(v, account, name);
    lemma_enrol_is_idempotent(v, account, name, record.account@, record.name@);
    assert(enrolled(u, record.account@, record.name@) == u);
    let a = account_at(v, key);
    lemma_account_at_range(v, key);
    if a < 0 {
        lemma_account_at_found(u, key, v.len() as int);
        lemma_account_at_found(v1, key, v.len() as int);
        assert(a1 == v.len());
        lemma_slot_of_found(u[v.len() as int].1, record.name@, 0);
        lemma_slot_of_found(v1[v.len() as int].1, record.name@, 0);
        let n = v.len() as int;
        let filed = seq![(record.name@, Some(record))];
        assert(u[n].1.update(0, (record.name@, Some(record))) =~= filed);
        assert(v1[n].1.update(0, (record.name@, Some(record))) =~= filed);
        assert(remembered(u, record) =~= v.push((key, filed)));
        assert(r =~= v.push((key, filed)));
    } else if slot_of(v[a].1, name) >= 0 {
        lemma_slot_exists(v[a].1, name, record.name@);
        assert(u == v);
        assert(v1 == v);
    } else {
        lemma_slot_of_range(v[a].1, name);
        assert(slot_of(v[a].1, record.name@) < 0) by {
            if slot_of(v[a].1, record.name@) >= 0 {
                lemma_slot_exists(v[a].1, record.name@, name);
            }
        }
        lemma_account_at_found(u, key, a);
        lemma_account_at_found(v1, key, a);
        let n = v[a].1.len() as int;
        lemma_slot_of_found(u[a].1, record.name@, n);
        lemma_slot_of_found(v1[a].1, record.name@, n);
        assert(remembered(u, record) =~= r) by {
            assert(remembered(u, record)[a].1 =~= r[a].1);
        }
    }
}

/// Forgetting a character takes it off its account's list, whether or not
/// anything was ever recorded about it.
pub proof fn lemma_forget_takes_it_off_the_list(
    v: Seq<AccountView>,
    account: Seq<char>,
    name: Seq<char>,
)
    requires
        roster_wf(v),
    ensures
        slot_of(list_in(forgotten(v, account, name), lowercase_of(account)), name) < 0,
        lookup(forgotten(v, account, name), account, name) is None,
{
    let key = lowercase_of(account);
    lemma_forgotten_wf(v, account, name);
    let w = forgotten(v, account, name);
    let a = account_at(v, key);
    lemma_account_at_range(v, key);
    if a >= 0 {
        let s = slot_of(v[a].1, name);
        lemma_slot_of_range(v[a].1, name);
        if s >= 0 {
            let old_list = v[a].1;
            let list = old_list.remove(s);
            lemma_account_at_after_update(v, a, (key, list), key);
            lemma_account_at_found(v, key, a);
            assert(w[a].1 == list);
            if slot_of(list, name) >= 0 {
                lemma_slot_of_range(list, name);
                let t = slot_of(list, name);
                let ot = if t < s { t } else { t + 1 };
                assert(list[t] == old_list[ot]);
                assert(same_name(old_list[s].0, old_list[ot].0));
            }
        } else {
            lemma_slot_of_range(v[a].1, name);
        }
    } else {
        lemma_account_at_missing(v, key);
    }
}

// ---------------------------------------------------------------------------
// The roster itself.

impl View for Roster {
    type V = Seq<AccountView>;

    closed spec fn view(&self) -> Seq<AccountView> {
        self.accounts@.map_values(
            |a: AccountList|
                (a.key@, a.characters@.map_values(|e: Enrolled| (e.name@, e.saved))),
        )
    }
}

spec fn entries_of(characters: Seq<Enrolled>) -> Seq<EntryView> {
    characters.map_values(|e: Enrolled| (e.name@, e.saved))
}

impl Roster {
    /// The roster's own consistency: see [`roster_wf`].
    pub open spec fn wf(&self) -> bool {
        roster_wf(self@)
    }

    proof fn lemma_view_at(&self, a: int)
        requires
            0 <= a < self.accounts@.len(),
        ensures
            self@.len() == self.accounts@.len(),
            self@[a] == (self.accounts@[a].key@, entries_of(self.accounts@[a].characters@)),
    {
    }

    /// An empty roster: a shard whose store has not been read yet.
    pub fn new() -> (roster: Self)
        ensures
            roster@ == Seq::<AccountView>::empty(),
            roster.wf(),
    {
        let roster = Roster { accounts: Vec::new() };
        assert(roster@ =~= Seq::<AccountView>::empty());
        roster
    }

    /// Where the account with this folded name sits, if it has a list.
    fn account_index(&self, key: &String) -> (found: Option<usize>)
        ensures
            match found {
                Some(a) => a < self@.len() && self@[a as int].0 == key@,
                None => forall|i: int| 0 <= i < self@.len() ==> #[trigger] self@[i].0 != key@,
            },
    {
        let mut i: usize = 0;
        while i < self.accounts.len()
            invariant
                i <= self.accounts@.len(),
                self@.len() == self.accounts@.len(),
                forall|j: int| 0 <= j < i ==> #[trigger] self@[j].0 != key@,
            decreases self.accounts@.len() - i,
        {
            proof {
                self.lemma_view_at(i as int);
            }
            if self.accounts[i].key == *key {
                return Some(i);
            }
            i = i + 1;
        }
        None
    }

    /// Where the character with this folded name sits in a list, if anywhere.
    fn slot_index(characters: &Vec<Enrolled>, folded: &String) -> (found: Option<usize>)
        ensures
            match found {
                Some(s) => s < characters@.len() && lowercase_of(characters@[s as int].name@)
                    == folded@,
                None => forall|i: int|
                    0 <= i < characters@.len() ==> lowercase_of(#[trigger] characters@[i].name@)
                        != folded@,
            },
    {
        let mut i: usize = 0;
        while i < characters.len()
            invariant
                i <= characters@.len(),
                forall|j: int|
                    0 <= j < i ==> lowercase_of(#[trigger] characters@[j].name@) != folded@,
            decreases characters@.len() - i,
        {
            let candidate = to_lowercase(characters[i].name.as_str());
            if candidate == *folded {
                return Some(i);
            }
            i = i + 1;
        }
        None
    }

    /// Put a character on an account's list, if it is not on it already.
    ///
    /// Idempotent, because the boot, the configuration and a creation may all
    /// name the same character; and an entry that is already there is not
    /// touched at all, neither its record nor its spelling.
    pub fn enrol(&mut self, account: &str, name: &str)
        requires
            old(self).wf(),
        ensures
            final(self).wf(),
            final(self)@ == enrolled(old(self)@, account@, name@),
    {
        proof {
            lemma_enrolled_wf(self@, account@, name@);
        }
        let key = to_lowercase(account);
        let folded = to_lowercase(name);
        let ghost before = self@;
        match self.account_index(&key) {
            None => {
                proof {
                    lemma_account_at_missing(before, key@);
                }
                let mut characters: Vec<Enrolled> = Vec::new();
                characters.push(Enrolled { name: name.to_owned(), saved: None });
                self.accounts.push(AccountList { key, characters });
                proof {
                    assert(entries_of(self.accounts@.last().characters@) =~= seq![
                        (name@, None::<CharacterRecord>),
                    ]);
                    assert(self@ =~= before.push(
                        (lowercase_of(account@), seq![(name@, None::<CharacterRecord>)]),
                    )) by {
                        assert forall|i: int| 0 <= i < self@.len() implies self@[i] == before.push(
                            (lowercase_of(account@), seq![(name@, None::<CharacterRecord>)]),
                        )[i] by {
                            if i < before.len() {
                                self.lemma_view_at(i);
                            } else {
                                self.lemma_view_at(i);
                            }
                        }
                    }
                }
            },
            Some(a) => {
                proof {
                    lemma_account_at_found(before, key@, a as int);
                    self.lemma_view_at(a as int);
                }
                match Self::slot_index(&self.accounts[a].characters, &folded) {
                    Some(s) => {
                        proof {
                            lemma_slot_of_found(before[a as int].1, name@, s as int);
                        }
                        return;
                    },
                    None => {
                        proof {
                            lemma_slot_of_range(before[a as int].1, name@);
                            if slot_of(before[a as int].1, name@) >= 0 {
                                let k = slot_of(before[a as int].1, name@);
                                assert(lowercase_of(self.accounts@[a as int].characters@[k].name@)
                                    != folded@);
                            }
                        }
                        let ghost old_chars = self.accounts@[a as int].characters@;
                        self.accounts[a].characters.push(Enrolled { name: name.to_owned(), saved: None });
                        proof {
                            assert(entries_of(self.accounts@[a as int].characters@) =~= entries_of(
                                old_chars,
                            ).push((name@, None::<CharacterRecord>)));
                            assert(self@ =~= before.update(
                                a as int,
                                (
                                    lowercase_of(account@),
                                    before[a as int].1.push((name@, None::<CharacterRecord>)),
                                ),
                            )) by {
                                assert forall|i: int| 0 <= i < self@.len() implies self@[i]
                                    == before.update(
                                    a as int,
                                    (
                                        lowercase_of(account@),
                                        before[a as int].1.push((name@, None::<CharacterRecord>)),
                                    ),
                                )[i] by {
                                    self.lemma_view_at(i);
                                }
                            }
                        }
                    },
                }
            },
        }
    }

    /// File a character's state, replacing whatever was known about it.
    ///
    /// Enrols the character if it is not on the list yet (a record arriving
    /// for a name nothing enrolled is the enrolment being late), files the
    /// record under the account and name the record itself carries, and adopts
    /// the record's spelling of the name.
    pub fn remember(&mut self, record: CharacterRecord)
        requires
            old(self).wf(),
        ensures
            final(self).wf(),
            final(self)@ == remembered(old(self)@, record),
    {
        let ghost before = self@;
        proof {
            lemma_remembered_wf(before, record);
            lemma_enrolled_wf(before, record.account@, record.name@);
        }
        self.enrol(record.account.as_str(), record.name.as_str());
        let ghost mid = self@;
        let key = to_lowercase(record.account.as_str());
        let folded = to_lowercase(record.name.as_str());
        let a = match self.account_index(&key) {
            Some(a) => a,
            None => {
                proof {
                    lemma_account_at_missing(mid, key@);
                }
                return;
            },
        };
        proof {
            lemma_account_at_found(mid, key@, a as int);
            self.lemma_view_at(a as int);
        }
        let s = match Self::slot_index(&self.accounts[a].characters, &folded) {
            Some(s) => s,
            None => {
                proof {
                    lemma_slot_of_range(mid[a as int].1, record.name@);
                    let k = slot_of(mid[a as int].1, record.name@);
                    assert(lowercase_of(self.accounts@[a as int].characters@[k].name@) != folded@);
                }
                return;
            },
        };
        proof {
            lemma_slot_of_found(mid[a as int].1, record.name@, s as int);
        }
        let ghost old_chars = self.accounts@[a as int].characters@;
        let name = record.name.clone();
        let ghost r = record;
        self.accounts[a].characters[s] = Enrolled { name, saved: Some(record) };
        proof {
            assert(entries_of(self.accounts@[a as int].characters@) =~= entries_of(old_chars).update(
                s as int,
                (r.name@, Some(r)),
            ));
            assert(self@ =~= remembered(before, r)) by {
                assert forall|i: int| 0 <= i < self@.len() implies self@[i] == remembered(
                    before,
                    r,
                )[i] by {
                    self.lemma_view_at(i);
                }
            }
        }
    }

    /// Where this character was last seen, or `None` if it is not on the list
    /// or nothing has ever recorded it.
    pub fn get(&self, account: &str, character: &str) -> (found: Option<&CharacterRecord>)
        requires
            self.wf(),
        ensures
            match found {
                Some(record) => lookup(self@, account@, character@) == Some(*record),
                None => lookup(self@, account@, character@) is None,
            },
    {
        let key = to_lowercase(account);
        let folded = to_lowercase(character);
        let a = match self.account_index(&key) {
            Some(a) => a,
            None => {
                proof {
                    lemma_account_at_missing(self@, key@);
                }
                return None;
            },
        };
        proof {
            lemma_account_at_found(self@, key@, a as int);
            self.lemma_view_at(a as int);
        }
        match Self::slot_index(&self.accounts[a].characters, &folded) {
            Some(s) => {
                proof {
                    lemma_slot_of_found(self@[a as int].1, character@, s as int);
                }
                self.accounts[a].characters[s].saved.as_ref()
            },
            None => {
                proof {
                    lemma_slot_of_range(self@[a as int].1, character@);
                    if slot_of(self@[a as int].1, character@) >= 0 {
                        let k = slot_of(self@[a as int].1, character@);
                        assert(lowercase_of(self.accounts@[a as int].characters@[k].name@)
                            != folded@);
                    }
                }
                None
            },
        }
    }

    /// Take a character off its account's list: it has been deleted.
    ///
    /// Hands back what was saved about it, so the caller can forget the store
    /// row and the inventory under its serial. The entry leaves the list
    /// whether or not anything was ever recorded about it.
    pub fn forget(&mut self, account: &str, character: &str) -> (removed: Option<CharacterRecord>)
        requires
            old(self).wf(),
        ensures
            final(self).wf(),
            final(self)@ == forgotten(old(self)@, account@, character@),
            removed == lookup(old(self)@, account@, character@),
    {
        let ghost before = self@;
        proof {
            lemma_forgotten_wf(before, account@, character@);
        }
        let key = to_lowercase(account);
        let folded = to_lowercase(character);
        let a = match self.account_index(&key) {
            Some(a) => a,
            None => {
                proof {
                    lemma_account_at_missing(before, key@);
                }
                return None;
            },
        };
        proof {
            lemma_account_at_found(before, key@, a as int);
            self.lemma_view_at(a as int);
        }
        let s = match Self::slot_index(&self.accounts[a].characters, &folded) {
            Some(s) => s,
            None => {
                proof {
                    lemma_slot_of_range(before[a as int].1, character@);
                    if slot_of(before[a as int].1, character@) >= 0 {
                        let k = slot_of(before[a as int].1, character@);
                        assert(lowercase_of(self.accounts@[a as int].characters@[k].name@)
                            != folded@);
                    }
                }
                return None;
            },
        };
        proof {
            lemma_slot_of_found(before[a as int].1, character@, s as int);
        }
        let ghost old_chars = self.accounts@[a as int].characters@;
        let entry = self.accounts[a].characters.remove(s);
        proof {
            assert(entries_of(self.accounts@[a as int].characters@) =~= entries_of(old_chars).remove(
                s as int,
            ));
            assert(self@ =~= forgotten(before, account@, character@)) by {
                assert forall|i: int| 0 <= i < self@.len() implies self@[i] == forgotten(
                    before,
                    account@,
                    character@,
                )[i] by {
                    self.lemma_view_at(i);
                }
            }
        }
        entry.saved
    }

    /// An account's characters in slot order, for the character list. Empty
    /// for an account with none.
    pub fn characters(&self, account: &str) -> (listed: Vec<CharacterEntry>)
        requires
            self.wf(),
        ensures
            listed@.map_values(|e: CharacterEntry| e.name@) == names_in(self@, account@),
    {
        let key = to_lowercase(account);
        let mut listed: Vec<CharacterEntry> = Vec::new();
        let a = match self.account_index(&key) {
            Some(a) => a,
            None => {
                proof {
                    lemma_account_at_missing(self@, key@);
                    assert(listed@.map_values(|e: CharacterEntry| e.name@) =~= names_in(
                        self@,
                        account@,
                    ));
                }
                return listed;
            },
        };
        proof {
            lemma_account_at_found(self@, key@, a as int);
            self.lemma_view_at(a as int);
        }
        let characters = &self.accounts[a].characters;
        let ghost names = self@[a as int].1.map_values(|e: EntryView| e.0);
        let mut i: usize = 0;
        while i < characters.len()
            invariant
                i <= characters@.len(),
                names.len() == characters@.len(),
                forall|j: int| 0 <= j < characters@.len() ==> #[trigger] names[j] == characters@[j].name@,
                listed@.len() == i,
                listed@.map_values(|e: CharacterEntry| e.name@) =~= names.take(i as int),
            decreases characters@.len() - i,
        {
            let ghost prev = listed@;
            let name = characters[i].name.clone();
            assert(name@ == names[i as int]);
            listed.push(CharacterEntry { name });
            proof {
                assert forall|j: int| 0 <= j < i as int + 1 implies #[trigger] listed@[j].name@
                    == names.take(i as int + 1)[j] by {
                    if j < i {
                        assert(listed@[j] == prev[j]);
                        assert(prev.map_values(|e: CharacterEntry| e.name@)[j] == names.take(
                            i as int,
                        )[j]);
                    }
                }
                assert(listed@.map_values(|e: CharacterEntry| e.name@) =~= names.take(
                    i as int + 1,
                ));
            }
            i = i + 1;
        }
        proof {
            assert(names.take(i as int) =~= names);
        }
        listed
    }

    /// How many characters have a saved record, over every account. Saturates
    /// at the largest `usize`.
    pub fn saved(&self) -> (count: usize)
        ensures
            count as nat == if saved_count(self@) <= usize::MAX {
                saved_count(self@)
            } else {
                usize::MAX as nat
            },
    {
        let mut total: usize = 0;
        let mut a: usize = 0;
        while a < self.accounts.len()
            invariant
                a <= self.accounts@.len(),
                self@.len() == self.accounts@.len(),
                total as nat == if saved_count(self@.take(a as int)) <= usize::MAX {
                    saved_count(self@.take(a as int))
                } else {
                    usize::MAX as nat
                },
            decreases self.accounts@.len() - a,
        {
            proof {
                self.lemma_view_at(a as int);
            }
            let characters = &self.accounts[a].characters;
            let ghost list = self@[a as int].1;
            let mut here: usize = 0;
            let mut i: usize = 0;
            while i < characters.len()
                invariant
                    i <= characters@.len(),
                    list == entries_of(characters@),
                    here as nat == saved_in(list.take(i as int)),
                    here <= i,
                decreases characters@.len() - i,
            {
                proof {
                    assert(list.take(i as int + 1).drop_last() =~= list.take(i as int));
                }
                if characters[i].saved.is_some() {
                    here = here + 1;
                }
                i = i + 1;
            }
            proof {
                assert(list.take(i as int) =~= list);
                assert(self@.take(a as int + 1).drop_last() =~= self@.take(a as int));
            }
            total = total.saturating_add(here);
            a = a + 1;
        }
        proof {
            assert(self@.take(a as int) =~= self@);
        }
        total
    }
}

} // verus!
