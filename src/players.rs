//! Players known to the server, split by whether they are online now.
//!
//! The time a player was last seen is carried as a value of any type `D`:
//! nothing here reads it.
use vstd::prelude::*;
use crate::text::str_eq;

verus! {

/// An entry of the server's user cache.
pub struct CachedUser<D> {
    pub name: String,
    pub uuid: String,
    pub expires_on: D,
}

/// A player: `last_join_time` is absent while the player is online.
pub struct Player<D> {
    pub name: String,
    pub uuid: String,
    pub last_join_time: Option<D>,
}

pub open spec fn is_online(uuid: Seq<char>, online: Seq<String>) -> bool {
    exists|i: int| 0 <= i < online.len() && online[i]@ == uuid
}

fn contains_uuid(online: &Vec<String>, uuid: &str) -> (r: bool)
    ensures
        r == is_online(uuid@, online@),
{
    let mut i: usize = 0;
    while i < online.len()
        invariant
            i <= online@.len(),
            forall|j: int| 0 <= j < i ==> online@[j]@ != uuid@,
        decreases online@.len() - i,
    {
        if str_eq(online[i].as_str(), uuid) {
            return true;
        }
        i = i + 1;
    }
    false
}

/// The player that a cache entry stands for, given who is online.
pub open spec fn player_of<D>(p: Player<D>, u: CachedUser<D>, online: Seq<String>) -> bool {
    &&& p.name == u.name
    &&& p.uuid == u.uuid
    &&& p.last_join_time == if is_online(u.uuid@, online) {
        None
    } else {
        Some(u.expires_on)
    }
}

/// The players of the user cache, in its order: online ones without a last
/// join time, the others with the time their cache entry expires.
pub fn get_players<D>(cache: Vec<CachedUser<D>>, online_uuids: &Vec<String>) -> (r: Vec<Player<D>>)
    ensures
        r@.len() == cache@.len(),
        forall|i: int| 0 <= i < r@.len() ==> player_of(#[trigger] r@[i], cache@[i], online_uuids@),
{
    let ghost orig = cache@;
    let mut rest = cache;
    let mut out: Vec<Player<D>> = Vec::new();
    while rest.len() > 0
        invariant
            out@.len() + rest@.len() == orig.len(),
            rest@ == orig.subrange(out@.len() as int, orig.len() as int),
            forall|i: int| 0 <= i < out@.len() ==> player_of(#[trigger] out@[i], orig[i], online_uuids@),
        decreases rest@.len(),
    {
        let ghost k = out@.len() as int;
        let u = rest.remove(0);
        assert(u == orig[k]);
        assert(rest@ =~= orig.subrange(k + 1, orig.len() as int));
        let online = contains_uuid(online_uuids, u.uuid.as_str());
        let p = Player {
            name: u.name,
            uuid: u.uuid,
            last_join_time: if online {
                None
            } else {
                Some(u.expires_on)
            },
        };
        out.push(p);
    }
    out
}

/// The players split into those online and those offline, each in the
/// order given.
pub fn split_online<D>(players: Vec<Player<D>>) -> (r: (Vec<Player<D>>, Vec<Player<D>>))
    ensures
        r.0@ == players@.filter(|p: Player<D>| p.last_join_time is None),
        r.1@ == players@.filter(|p: Player<D>| p.last_join_time is Some),
{
    let ghost orig = players@;
    let mut rest = players;
    let mut online: Vec<Player<D>> = Vec::new();
    let mut offline: Vec<Player<D>> = Vec::new();
    let ghost mut k: int = 0;
    assert(orig.subrange(0, 0) =~= Seq::<Player<D>>::empty());
    proof {
        reveal(Seq::filter);
    }
    while rest.len() > 0
        invariant
            0 <= k <= orig.len(),
            rest@ == orig.subrange(k, orig.len() as int),
            online@ == orig.subrange(0, k).filter(|p: Player<D>| p.last_join_time is None),
            offline@ == orig.subrange(0, k).filter(|p: Player<D>| p.last_join_time is Some),
        decreases rest@.len(),
    {
        let p = rest.remove(0);
        assert(p == orig[k]);
        assert(rest@ =~= orig.subrange(k + 1, orig.len() as int));
        assert(orig.subrange(0, k + 1).drop_last() =~= orig.subrange(0, k));
        assert(orig.subrange(0, k + 1).last() == p);
        proof {
            reveal(Seq::filter);
            k = k + 1;
        }
        if p.last_join_time.is_none() {
            online.push(p);
        } else {
            offline.push(p);
        }
    }
    assert(orig.subrange(0, k) =~= orig);
    (online, offline)
}

/// For each successive match of `pattern` in `text`, what its first group
/// captured (`None` where that group took no part); `None` where `pattern` is
/// not a valid regular expression.
pub uninterp spec fn first_groups_of(pattern: Seq<char>, text: Seq<char>) -> Option<Seq<Option<Seq<char>>>>;

pub open spec fn texts_of(v: Seq<Option<String>>) -> Seq<Option<Seq<char>>> {
    v.map_values(|o: Option<String>| match o {
        Some(s) => Some(s@),
        None => None::<Seq<char>>,
    })
}

/// Relies on `regex::Regex::new`, and on `Regex::captures_iter` with
/// `Captures::get(1)` for the matches of the compiled expression.
#[verifier::external_body]
fn first_groups(pattern: &str, text: &str) -> (r: Option<Vec<Option<String>>>)
    ensures
        r is None ==> first_groups_of(pattern@, text@) is None,
        r matches Some(v) ==> first_groups_of(pattern@, text@) == Some(texts_of(v@)),
{
    match regex::Regex::new(pattern) {
        Ok(re) => Some(re.captures_iter(text).map(|c| c.get(1).map(|m| m.as_str().to_string())).collect()),
        Err(_) => None,
    }
}

/// The texts present in `g`, in order.
pub open spec fn present(g: Seq<Option<Seq<char>>>) -> Seq<Seq<char>>
    decreases g.len(),
{
    if g.len() == 0 {
        Seq::empty()
    } else {
        match g.last() {
            Some(t) => present(g.drop_last()).push(t),
            None => present(g.drop_last()),
        }
    }
}

/// The expression for a player's UUID, as the server lists them.
pub open spec fn uuid_pattern() -> Seq<char> {
    "([A-f0-9]{8}-[A-f0-9]{4}-[A-f0-9]{4}-[A-f0-9]{4}-[A-f0-9]{12})"@
}

/// The UUIDs that a server's player list names, in order.
pub fn extract_uuids(text: &str) -> (r: Vec<String>)
    ensures
        match first_groups_of(uuid_pattern(), text@) {
            Some(g) => r@.map_values(|s: String| s@) == present(g),
            None => r@.len() == 0,
        },
{
    let groups = match first_groups(
        "([A-f0-9]{8}-[A-f0-9]{4}-[A-f0-9]{4}-[A-f0-9]{4}-[A-f0-9]{12})",
        text,
    ) {
        Some(g) => g,
        None => {
            return Vec::new();
        },
    };
    let ghost orig = groups@;
    let ghost all = texts_of(orig);
    let ghost n = groups@.len();
    let mut rest = groups;
    let mut out: Vec<String> = Vec::new();
    let ghost mut k: int = 0;
    assert(all.subrange(0, 0) =~= Seq::<Option<Seq<char>>>::empty());
    assert(out@.map_values(|s: String| s@) =~= Seq::<Seq<char>>::empty());
    while rest.len() > 0
        invariant
            all.len() == n,
            0 <= k <= n,
            orig.len() == n,
            all == texts_of(orig),
            rest@ == orig.subrange(k, n as int),
            out@.map_values(|s: String| s@) == present(all.subrange(0, k)),
        decreases rest@.len(),
    {
        let o = rest.remove(0);
        proof {
            assert(o == orig[k]);
            assert(rest@ =~= orig.subrange(k + 1, n as int));
            assert(all.subrange(0, k + 1).drop_last() =~= all.subrange(0, k));
            assert(all.subrange(0, k + 1).last() == all[k]);
        }
        let ghost prev = out@;
        match o {
            Some(t) => {
                out.push(t);
                assert(out@.map_values(|s: String| s@) =~= prev.map_values(|s: String| s@).push(
                    all[k]->Some_0,
                ));
            },
            None => {},
        }
        proof {
            k = k + 1;
        }
    }
    assert(all.subrange(0, k) =~= all);
    out
}

} // verus!
