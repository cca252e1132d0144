//! The passwords that are in force, and the keys that belong to them.
use crate::effect;
use crate::effect::{Credential, CredentialSet, CredentialView};
use crate::model::{Database, DatabaseView, PasswordView};
use crate::registry;
use crate::registry::{Directive, DirectiveView, PublicView, Registry};
use crate::table::Key;
use crate::wire::WrapKey;
use dashmap::DashMap;
use std::collections::hash_map::RandomState;
use vstd::prelude::*;

verus! {

/// The keys that a map holds, by password.
pub uninterp spec fn dash_keys(map: DashMap<String, [u8; 32], RandomState>) -> Map<
    Seq<char>,
    [u8; 32],
>;

/// `DashMap::new`: a map without keys.
#[verifier::external_body]
fn keys_new() -> (map: DashMap<String, [u8; 32], RandomState>)
    ensures
        forall|password: Seq<char>| !#[trigger] dash_keys(map).contains_key(password),
{
    DashMap::new()
}

/// `DashMap::get`: the key of a password.
#[verifier::external_body]
fn keys_get(map: &DashMap<String, [u8; 32], RandomState>, password: &str) -> (key: Option<
    [u8; 32],
>)
    ensures
        key is Some <==> dash_keys(*map).contains_key(password@),
        key is Some ==> key->0 == dash_keys(*map)[password@],
{
    map.get(password).map(|entry| *entry.value())
}

/// `DashMap::insert`: gives a password its key.
#[verifier::external_body]
fn keys_insert(map: &mut DashMap<String, [u8; 32], RandomState>, password: String, key: [u8; 32])
    ensures
        dash_keys(*final(map)) == dash_keys(*old(map)).insert(password@, key),
{
    map.insert(password, key);
}

/// `DashMap::remove`: takes the key of a password out.
#[verifier::external_body]
fn keys_remove(map: &mut DashMap<String, [u8; 32], RandomState>, password: &str)
    ensures
        dash_keys(*final(map)) == dash_keys(*old(map)).remove(password@),
{
    map.remove(password);
}

/// `DashMap::retain`: keeps the keys of the passwords that are listed.
#[verifier::external_body]
fn keys_retain(map: &mut DashMap<String, [u8; 32], RandomState>, listed: &Vec<String>)
    ensures
        dash_keys(*final(map)) == dash_keys(*old(map)).restrict(text_views(listed@).to_set()),
{
    map.retain(|password, _| is_listed(listed, password));
}

/// What texts say.
pub open spec fn text_views(texts: Seq<String>) -> Seq<Seq<char>> {
    Seq::new(texts.len(), |i: int| texts[i]@)
}

/// Whether a text is among those listed.
fn is_listed(listed: &Vec<String>, text: &String) -> (found: bool)
    ensures
        found == text_views(listed@).contains(text@),
{
    let mut i: usize = 0;
    while i < listed.len()
        invariant
            i <= listed@.len(),
            forall|j: int| 0 <= j < i ==> #[trigger] text_views(listed@)[j] != text@,
        decreases listed.len() - i,
    {
        if listed[i].same(text) {
            assert(text_views(listed@)[i as int] == text@);
            return true;
        }
        i += 1;
    }
    false
}

/// A password may be used.
pub open spec fn is_active(entry: PasswordView) -> bool {
    !entry.is_deactivated && !entry.expired
}

/// Those of the passwords listed that may be used, in the same order.
pub open spec fn active_of(
    listed: Seq<Seq<char>>,
    passwords: Map<Seq<char>, PasswordView>,
) -> Seq<Seq<char>> {
    listed.filter(|password: Seq<char>| is_active(passwords[password]))
}

/// The passwords in force: the main one, where there is one, and then the others that may be
/// used, in the order in which the database lists them.
pub open spec fn in_force(db: DatabaseView, listed: Seq<Seq<char>>) -> Seq<Seq<char>> {
    (if db.main_password.len() > 0 {
        seq![db.main_password]
    } else {
        Seq::empty()
    }) + active_of(listed, db.passwords)
}

/// The passwords in force.
pub fn active_passwords(db: &Database) -> (passwords: Vec<String>)
    requires
        db.wf(),
    ensures
        text_views(passwords@) == in_force(db@, db.passwords.keys()),
{
    let ghost listed = db.passwords.keys();
    let ghost chosen = |password: Seq<char>| is_active(db@.passwords[password]);
    let mut passwords: Vec<String> = Vec::new();
    if !db.main_password.as_str().is_empty() {
        passwords.push(db.main_password.clone());
    }
    let ghost first = text_views(passwords@);
    let mut i: usize = 0;
    proof {
        assert(first =~= if db@.main_password.len() > 0 {
            seq![db@.main_password]
        } else {
            Seq::empty()
        });
        assert(listed.take(0) =~= Seq::<Seq<char>>::empty());
        reveal(Seq::filter);
        assert(first + listed.take(0).filter(chosen) =~= first);
    }
    while i < db.passwords.len()
        invariant
            i <= listed.len(),
            db.wf(),
            listed == db.passwords.keys(),
            chosen == (|password: Seq<char>| is_active(db@.passwords[password])),
            text_views(passwords@) == first + listed.take(i as int).filter(chosen),
        decreases listed.len() - i,
    {
        let password = db.passwords.key_at(i);
        let entry = db.passwords.value_at(i);
        let ghost before = text_views(passwords@);
        proof {
            let next = listed.take(i + 1);
            assert(next.drop_last() =~= listed.take(i as int));
            assert(next.last() == password@);
            reveal(Seq::filter);
        }
        if !entry.is_deactivated && !entry.expired {
            passwords.push(password.clone());
            assert(text_views(passwords@) =~= before.push(password@));
        }
        i += 1;
        assert(text_views(passwords@) =~= first + listed.take(i as int).filter(chosen));
    }
    assert(listed.take(i as int) =~= listed);
    passwords
}

/// The passwords whose lifetime is over, in the order in which the database lists them.
pub fn expired_passwords(db: &Database) -> (passwords: Vec<String>)
    requires
        db.wf(),
    ensures
        text_views(passwords@) == db.passwords.keys().filter(
            |password: Seq<char>| db@.passwords[password].expired,
        ),
{
    let ghost listed = db.passwords.keys();
    let ghost chosen = |password: Seq<char>| db@.passwords[password].expired;
    let mut passwords: Vec<String> = Vec::new();
    let mut i: usize = 0;
    proof {
        assert(listed.take(0) =~= Seq::<Seq<char>>::empty());
        reveal(Seq::filter);
        assert(text_views(passwords@) =~= listed.take(0).filter(chosen));
    }
    while i < db.passwords.len()
        invariant
            i <= listed.len(),
            db.wf(),
            listed == db.passwords.keys(),
            chosen == (|password: Seq<char>| db@.passwords[password].expired),
            text_views(passwords@) == listed.take(i as int).filter(chosen),
        decreases listed.len() - i,
    {
        let password = db.passwords.key_at(i);
        let entry = db.passwords.value_at(i);
        let ghost before = text_views(passwords@);
        proof {
            let next = listed.take(i + 1);
            assert(next.drop_last() =~= listed.take(i as int));
            assert(next.last() == password@);
            reveal(Seq::filter);
        }
        if entry.expired {
            passwords.push(password.clone());
            assert(text_views(passwords@) =~= before.push(password@));
        }
        i += 1;
        assert(text_views(passwords@) =~= listed.take(i as int).filter(chosen));
    }
    assert(listed.take(i as int) =~= listed);
    passwords
}

/// The keys that were derived from passwords.
pub struct KeyCache {
    keys: DashMap<String, [u8; 32], RandomState>,
}

impl View for KeyCache {
    type V = Map<Seq<char>, [u8; 32]>;

    closed spec fn view(&self) -> Map<Seq<char>, [u8; 32]> {
        dash_keys(self.keys)
    }
}

impl KeyCache {
    /// A cache without keys.
    pub fn new() -> (cache: KeyCache)
        ensures
            cache@ == Map::<Seq<char>, [u8; 32]>::empty(),
    {
        let cache = KeyCache { keys: keys_new() };
        assert(cache@ =~= Map::<Seq<char>, [u8; 32]>::empty());
        cache
    }

    /// Keeps the keys of the passwords in force, and lists the passwords whose key is still
    /// to be derived.
    pub fn prepare(&mut self, passwords: &Vec<String>) -> (missing: Vec<String>)
        ensures
            final(self)@ == old(self)@.restrict(text_views(passwords@).to_set()),
            text_views(missing@) == text_views(passwords@).filter(
                |password: Seq<char>| !final(self)@.contains_key(password),
            ),
    {
        keys_retain(&mut self.keys, passwords);
        let ghost listed = text_views(passwords@);
        let ghost chosen = |password: Seq<char>| !self@.contains_key(password);
        let mut missing: Vec<String> = Vec::new();
        let mut i: usize = 0;
        proof {
            assert(listed.take(0) =~= Seq::<Seq<char>>::empty());
            reveal(Seq::filter);
            assert(text_views(missing@) =~= listed.take(0).filter(chosen));
        }
        while i < passwords.len()
            invariant
                i <= passwords@.len(),
                listed == text_views(passwords@),
                chosen == (|password: Seq<char>| !self@.contains_key(password)),
                text_views(missing@) == listed.take(i as int).filter(chosen),
            decreases passwords.len() - i,
        {
            let ghost before = text_views(missing@);
            proof {
                let next = listed.take(i + 1);
                assert(next.drop_last() =~= listed.take(i as int));
                assert(next.last() == passwords@[i as int]@);
                reveal(Seq::filter);
            }
            if keys_get(&self.keys, passwords[i].as_str()).is_none() {
                missing.push(passwords[i].clone());
                assert(text_views(missing@) =~= before.push(passwords@[i as int]@));
            }
            i += 1;
            assert(text_views(missing@) =~= listed.take(i as int).filter(chosen));
        }
        assert(listed.take(i as int) =~= listed);
        missing
    }

    /// Takes note of a key that was derived.
    pub fn insert(&mut self, password: String, key: [u8; 32])
        ensures
            final(self)@ == old(self)@.insert(password@, key),
    {
        keys_insert(&mut self.keys, password, key);
    }

    /// Forgets the key of a password.
    pub fn remove(&mut self, password: &str)
        ensures
            final(self)@ == old(self)@.remove(password@),
    {
        keys_remove(&mut self.keys, password);
    }

    /// The credentials for some passwords. `None` where a key is missing.
    pub fn build_credentials(&self, passwords: &Vec<String>) -> (credentials: Option<
        CredentialSet,
    >)
        ensures
            credentials is Some <==> forall|i: int|
                0 <= i < passwords@.len() ==> self@.contains_key(#[trigger] passwords@[i]@),
            credentials matches Some(set) ==> set@ == Seq::new(
                passwords@.len(),
                |i: int|
                    CredentialView { password: passwords@[i]@, key: WrapKey { bytes: self@[passwords@[i]@] } },
            ),
    {
        let mut entries: Vec<Credential> = Vec::new();
        let mut i: usize = 0;
        while i < passwords.len()
            invariant
                i <= passwords@.len(),
                entries@.len() == i,
                forall|j: int| 0 <= j < i ==> self@.contains_key(#[trigger] passwords@[j]@),
                forall|j: int|
                    0 <= j < i ==> (#[trigger] entries@[j])@ == (CredentialView {
                        password: passwords@[j]@,
                        key: WrapKey { bytes: self@[passwords@[j]@] },
                    }),
            decreases passwords.len() - i,
        {
            match keys_get(&self.keys, passwords[i].as_str()) {
                Some(key) => entries.push(Credential { password: passwords[i].clone(), key: WrapKey { bytes: key } }),
                None => {
                    assert(!self@.contains_key(passwords@[i as int]@));
                    return None;
                },
            }
            i += 1;
        }
        let set = CredentialSet { entries };
        assert(set@ =~= Seq::new(
            passwords@.len(),
            |i: int| CredentialView { password: passwords@[i]@, key: WrapKey { bytes: self@[passwords@[i]@] } },
        ));
        Some(set)
    }
}

/// Takes a password out, if its lifetime is still over: its key is forgotten, and its sessions
/// are dropped. `None` where it was left in.
pub fn expire_password(
    db: &mut Database,
    cache: &mut KeyCache,
    registry: &mut Registry,
    password: &String,
) -> (directives: Option<Vec<Directive>>)
    requires
        old(db).wf(),
        old(registry).wf(),
    ensures
        final(db).wf(),
        final(registry).wf(),
        ({
            let over = old(db)@.passwords.contains_key(password@)
                && old(db)@.passwords[password@].expired;
            let chosen = |session: PublicView| session.password == password@;
            &&& directives is Some <==> over
            &&& !over ==> final(db)@ == old(db)@ && final(cache)@ == old(cache)@
                && final(registry)@ == old(registry)@
            &&& over ==> {
                &&& final(db)@ == (DatabaseView {
                    passwords: old(db)@.passwords.remove(password@),
                    ..old(db)@
                })
                &&& final(cache)@ == old(cache)@.remove(password@)
                &&& final(registry)@ == old(registry)@.without(chosen)
                &&& directives->0@.len() > 1
                &&& directives->0@[0]@ == DirectiveView::SaveDatabase
                &&& directives->0@[1]@ == DirectiveView::Order(
                    effect::CommandView::DropPassword { password: password@ },
                )
                &&& registry::drops_in_some_order(
                    old(registry)@.ids_where(chosen),
                    false,
                    Seq::empty(),
                    registry::directive_views(directives->0@).skip(2),
                )
            }
        }),
{
    let over = match db.passwords.get(password) {
        Some(entry) => entry.expired,
        None => false,
    };
    if !over {
        return None;
    }
    let ghost before = db@;
    let _ = db.passwords.remove(password);
    assert(db@ =~= (DatabaseView { passwords: before.passwords.remove(password@), ..before }));
    cache.remove(password.as_str());
    let mut dropped = registry.drop_password_sessions(password.as_str());
    let ghost listed = registry::directive_views(dropped@);
    let mut directives: Vec<Directive> = Vec::new();
    directives.push(Directive::SaveDatabase);
    directives.append(&mut dropped);
    assert(registry::directive_views(directives@).skip(2) =~= listed.skip(1));
    Some(directives)
}

/// A password whose lifetime is over is not in force, nor is one that was deactivated, and
/// every other one of the database is.
pub proof fn passwords_in_force_are_active(
    db: DatabaseView,
    listed: Seq<Seq<char>>,
    password: Seq<char>,
)
    requires
        listed.to_set() == db.passwords.dom(),
        password != db.main_password,
    ensures
        in_force(db, listed).contains(password) <==> db.passwords.contains_key(password)
            && is_active(db.passwords[password]),
{
    let chosen = |p: Seq<char>| is_active(db.passwords[p]);
    let first = if db.main_password.len() > 0 {
        seq![db.main_password]
    } else {
        Seq::empty()
    };
    let active = listed.filter(chosen);
    assert(listed.contains(password) <==> listed.to_set().contains(password));
    if active.contains(password) {
        let i = choose|i: int| 0 <= i < active.len() && active[i] == password;
        assert((first + active)[first.len() + i] == password);
        listed.lemma_filter_contains_rev(chosen, password);
        listed.lemma_filter_pred(chosen, i);
    }
    if in_force(db, listed).contains(password) {
        let i = choose|i: int| 0 <= i < (first + active).len() && (first + active)[i] == password;
        assert(i >= first.len());
        assert(active[i - first.len()] == password);
    }
    if listed.contains(password) && chosen(password) {
        let i = choose|i: int| 0 <= i < listed.len() && listed[i] == password;
        listed.lemma_filter_contains(chosen, i);
    }
}

} // verus!
