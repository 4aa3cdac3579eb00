//! The reports as lines of text, and finding the conversation to report on.

pub mod couple;
pub mod curios;
pub mod dig;
pub mod inspect;
pub mod volume;

use vstd::prelude::*;
use vstd::string::*;

use crate::fmt;
use crate::model;
use crate::model::{Contact, Conversation};
use crate::ordered;
use crate::ordered::SortedMap;
use crate::text;
use crate::unicode;

pub use crate::report::couple::print_couple_report;
pub use crate::report::curios::print_curios;
pub use crate::report::dig::{print_dig_report, print_latency};
pub use crate::report::volume::{print_temporal_report, print_volume_report};

verus! {

/// What kind of conversation a name stands for.
pub open spec fn kind_text(username: Seq<char>) -> Seq<char> {
    if text::has_text(username, "@chatroom"@) {
        "群"@
    } else {
        "好友"@
    }
}

/// Group or friend.
pub fn conv_kind(username: &str) -> (r: &'static str)
    ensures
        r@ == kind_text(username@),
{
    if text::contains(username, "@chatroom") {
        "群"
    } else {
        "好友"
    }
}

/// A name of which only the ends are shown; of a short name nothing is.
pub open spec fn masked(username: Seq<char>) -> Seq<char> {
    if username.len() <= 4 {
        "*"@
    } else {
        username.take(3) + "…"@ + username.skip(username.len() - 3)
    }
}

/// Hides the middle of a name.
pub fn mask_user(username: &str) -> (r: String)
    ensures
        r@ == masked(username@),
{
    let chars = text::chars_of(username);
    let n = chars.len();
    if n <= 4 {
        return "*".to_string();
    }
    let mut r = text::text_between(&chars, 0, 3);
    assert(r@ =~= username@.take(3));
    r.append("…");
    let tail = text::text_between(&chars, n - 3, n);
    assert(tail@ =~= username@.skip(username@.len() - 3));
    r.append(tail.as_str());
    r
}

/// A name in at most `max` characters, the ellipsis included.
pub open spec fn display_text(t: Seq<char>, max: int) -> Seq<char> {
    if t.len() <= max {
        t
    } else if max == 0 {
        fmt::shortened(t, 0)
    } else {
        fmt::shortened(t, max - 1)
    }
}

/// Shortens a name to `max` characters, the ellipsis included.
pub fn truncate_display(s: &str, max: usize) -> (r: String)
    ensures
        r@ == display_text(s@, max as int),
{
    let chars = text::chars_of(s);
    if chars.len() <= max {
        return s.to_string();
    }
    let keep: usize = if max == 0 {
        0
    } else {
        max - 1
    };
    fmt::truncate(s, keep)
}

/// A name that is shown in fewer characters fits its place.
pub proof fn displayed_name_fits(t: Seq<char>, max: int)
    requires
        max >= 1,
    ensures
        display_text(t, max).len() <= max,
{
    reveal_strlit("…");
}

/// Contacts by account name.
pub struct ContactIndex {
    by_username: SortedMap<String, Contact>,
}

/// The contacts by account name; of several with the same name the last counts.
pub open spec fn contact_map(contacts: Seq<Contact>) -> Map<Seq<char>, Contact>
    decreases contacts.len(),
{
    if contacts.len() == 0 {
        Map::empty()
    } else {
        contact_map(contacts.drop_last()).insert(contacts.last().username@, contacts.last())
    }
}

/// The name that is shown for an account: the remark or the nickname of the contact, else the
/// masked account name.
pub open spec fn name_of(contacts: Map<Seq<char>, Contact>, username: Seq<char>) -> Seq<char> {
    if contacts.contains_key(username) && (model::is_given(contacts[username].remark) || model::is_given(
        contacts[username].nickname,
    )) {
        contacts[username].shown_name()
    } else {
        masked(username)
    }
}

impl ContactIndex {
    /// The index is in order.
    pub closed spec fn wf(&self) -> bool {
        self.by_username.wf()
    }

    /// The contacts by account name.
    pub closed spec fn contacts(&self) -> Map<Seq<char>, Contact> {
        self.by_username.map()
    }

    /// Indexes contacts.
    pub fn build(contacts: Vec<Contact>) -> (index: Self)
        ensures
            index.wf(),
            index.contacts() == contact_map(contacts@),
    {
        let ghost all = contacts@;
        let mut backwards: Vec<Contact> = Vec::new();
        let mut rest = contacts;
        while rest.len() > 0
            invariant
                rest@.len() <= all.len(),
                rest@ == all.take(rest@.len() as int),
                backwards@ == all.skip(rest@.len() as int).reverse(),
            decreases rest@.len(),
        {
            let ghost n = rest@.len();
            if let Some(c) = rest.pop() {
                assert(all.skip(n - 1).reverse() =~= all.skip(n as int).reverse().push(all[n - 1]));
                backwards.push(c);
            }
        }
        assert(all.skip(0) =~= all);
        let ghost reversed = backwards@;
        let mut by_username: SortedMap<String, Contact> = SortedMap::new();
        while backwards.len() > 0
            invariant
                backwards@.len() <= all.len(),
                reversed == all.reverse(),
                backwards@ == reversed.take(backwards@.len() as int),
                by_username.wf(),
                by_username.map() == contact_map(all.take(all.len() - backwards@.len())),
            decreases backwards@.len(),
        {
            let ghost n = backwards@.len();
            if let Some(c) = backwards.pop() {
                proof {
                    let k = all.len() - n;
                    assert(c == all[k]);
                    assert(all.take(k + 1).drop_last() =~= all.take(k));
                }
                let key = c.username.clone();
                by_username.set(key, c);
            }
        }
        assert(all.take(all.len() as int) =~= all);
        ContactIndex { by_username }
    }

    /// The name to show for an account: the remark or the nickname of the contact, else the masked
    /// account name.
    pub fn name_by_username(&self, username: &str) -> (name: String)
        requires
            self.wf(),
        ensures
            name@ == name_of(self.contacts(), username@),
    {
        match self.by_username.get(&username.to_string()) {
            Some(c) => if c.has_name() {
                c.display_name().to_string()
            } else {
                mask_user(username)
            },
            None => mask_user(username),
        }
    }
}

/// Why no conversation was found.
pub enum LocateError {
    /// No conversation has the account name.
    UserNotFound,
    /// No conversation matches.
    NoMatch,
    /// Several conversations match, at these positions.
    NotUnique(Vec<usize>),
    /// Ranks begin with one.
    RankZero,
    /// There are not so many conversations.
    RankOutOfRange,
    /// Nothing says which conversation is meant.
    NoTarget,
}

/// The conversation has the account name.
pub open spec fn has_user(c: Conversation, user: Seq<char>) -> bool {
    c.username@ == user
}

/// The conversation matches: the text stands in its account name or in the name that is shown for
/// it, whatever the case.
pub open spec fn is_match(c: Conversation, contacts: Map<Seq<char>, Contact>, query: Seq<char>) -> bool {
    let q = unicode::lowercase(query);
    text::has_text(unicode::lowercase(c.username@), q) || text::has_text(
        unicode::lowercase(name_of(contacts, c.username@)),
        q,
    )
}

/// The positions of the conversations that match.
pub open spec fn matches(convs: Seq<Conversation>, contacts: Map<Seq<char>, Contact>, query: Seq<char>) -> Seq<usize>
    decreases convs.len(),
{
    if convs.len() == 0 {
        Seq::empty()
    } else {
        let before = matches(convs.drop_last(), contacts, query);
        if is_match(convs.last(), contacts, query) {
            before.push((convs.len() - 1) as usize)
        } else {
            before
        }
    }
}

/// `r` is the first conversation with the account name.
pub open spec fn finds_user(r: Result<usize, LocateError>, convs: Seq<Conversation>, user: Seq<char>) -> bool {
    match r {
        Ok(p) => {
            &&& p < convs.len()
            &&& has_user(convs[p as int], user)
            &&& forall|k: int| 0 <= k < p ==> !has_user(#[trigger] convs[k], user)
        },
        Err(e) => e is UserNotFound && forall|k: int| 0 <= k < convs.len() ==> !has_user(#[trigger] convs[k], user),
    }
}

/// `r` is the only conversation that matches.
pub open spec fn finds_match(r: Result<usize, LocateError>, hits: Seq<usize>) -> bool {
    match r {
        Ok(p) => hits == seq![p],
        Err(LocateError::NoMatch) => hits.len() == 0,
        Err(LocateError::NotUnique(several)) => hits.len() > 1 && several@ == hits,
        Err(_) => false,
    }
}

/// `r` is the conversation with the rank, the largest first; equal ones in their own order.
pub open spec fn finds_rank(r: Result<usize, LocateError>, counts: Seq<i64>, rank: int) -> bool {
    match r {
        Ok(p) => 1 <= rank <= counts.len() && exists|order: Seq<usize>| #[trigger]
            ordered::falling_order(order, counts) && p == order[rank - 1],
        Err(LocateError::RankZero) => rank == 0,
        Err(LocateError::RankOutOfRange) => rank > counts.len(),
        Err(_) => false,
    }
}

/// `r` is the conversation that is meant: by account name, else by a part of a name, else by rank.
pub open spec fn locates(
    r: Result<usize, LocateError>,
    convs: Seq<Conversation>,
    contacts: Map<Seq<char>, Contact>,
    with: Option<Seq<char>>,
    rank: Option<usize>,
    user: Option<Seq<char>>,
    counts: Seq<i64>,
) -> bool {
    if user is Some {
        finds_user(r, convs, user->0)
    } else if with is Some {
        finds_match(r, matches(convs, contacts, with->0))
    } else if rank is Some {
        finds_rank(r, counts, rank->0 as int)
    } else {
        r matches Err(e) && e is NoTarget
    }
}

/// Whether the numbers of messages are needed to find the conversation.
pub fn needs_counts(with: Option<&str>, rank: Option<usize>, user: Option<&str>) -> (r: bool)
    ensures
        r == (user is None && with is None && rank is Some && rank->0 > 0),
{
    user.is_none() && with.is_none() && match rank {
        Some(n) => n > 0,
        None => false,
    }
}

/// The positions of the conversations that match.
fn find_matches(convs: &[Conversation], index: &ContactIndex, query: &str) -> (hits: Vec<usize>)
    requires
        index.wf(),
    ensures
        hits@ == matches(convs@, index.contacts(), query@),
        forall|k: int| 0 <= k < hits@.len() ==> #[trigger] hits@[k] < convs@.len(),
{
    let q = unicode::to_lower(query);
    let mut hits: Vec<usize> = Vec::new();
    let mut i: usize = 0;
    while i < convs.len()
        invariant
            i <= convs@.len(),
            index.wf(),
            q@ == unicode::lowercase(query@),
            hits@ == matches(convs@.take(i as int), index.contacts(), query@),
            forall|k: int| 0 <= k < hits@.len() ==> #[trigger] hits@[k] < i,
        decreases convs@.len() - i,
    {
        assert(convs@.take(i + 1).drop_last() =~= convs@.take(i as int));
        let user = unicode::to_lower(convs[i].username.as_str());
        let name = unicode::to_lower(index.name_by_username(convs[i].username.as_str()).as_str());
        if text::contains(user.as_str(), q.as_str()) || text::contains(name.as_str(), q.as_str()) {
            hits.push(i);
        }
        i = i + 1;
    }
    assert(convs@.take(i as int) =~= convs@);
    hits
}

/// The first conversation with the account name.
fn find_user(convs: &[Conversation], name: &str) -> (r: Result<usize, LocateError>)
    ensures
        finds_user(r, convs@, name@),
{
    let mut i: usize = 0;
    while i < convs.len()
        invariant
            i <= convs@.len(),
            forall|k: int| 0 <= k < i ==> !has_user(#[trigger] convs@[k], name@),
        decreases convs@.len() - i,
    {
        if text::same(convs[i].username.as_str(), name) {
            return Ok(i);
        }
        i = i + 1;
    }
    Err(LocateError::UserNotFound)
}

/// Finds the conversation that is meant. `counts` holds the messages of each conversation, where a
/// rank decides.
pub fn locate_conversation(
    convs: &[Conversation],
    index: &ContactIndex,
    with: Option<&str>,
    rank: Option<usize>,
    user: Option<&str>,
    counts: &Vec<i64>,
) -> (r: Result<usize, LocateError>)
    requires
        index.wf(),
        user is None && with is None && rank is Some && rank->0 > 0 ==> counts@.len() == convs@.len(),
    ensures
        locates(
            r,
            convs@,
            index.contacts(),
            match with {
                Some(t) => Some(t@),
                None => None,
            },
            rank,
            match user {
                Some(t) => Some(t@),
                None => None,
            },
            counts@,
        ),
        r matches Ok(p) ==> p < convs@.len(),
{
    if let Some(name) = user {
        return find_user(convs, name);
    }
    if let Some(query) = with {
        let hits = find_matches(convs, index, query);
        if hits.len() == 0 {
            return Err(LocateError::NoMatch);
        }
        if hits.len() == 1 {
            let p: usize = hits[0];
            assert(hits@ =~= seq![p]);
            return Ok(p);
        }
        return Err(LocateError::NotUnique(hits));
    }
    if let Some(n) = rank {
        if n == 0 {
            return Err(LocateError::RankZero);
        }
        if n > counts.len() {
            return Err(LocateError::RankOutOfRange);
        }
        let order = ordered::falling(counts);
        let p: usize = order[n - 1];
        assert(0 <= order@[n - 1] < counts@.len());
        return Ok(p);
    }
    Err(LocateError::NoTarget)
}

/// The conversation of rank one has no fewer messages than any other.
pub proof fn first_rank_is_largest(p: usize, counts: Seq<i64>)
    requires
        finds_rank(Ok(p), counts, 1),
        counts.len() <= usize::MAX,
    ensures
        p < counts.len(),
        forall|k: int| 0 <= k < counts.len() ==> #[trigger] counts[k] <= counts[p as int],
{
    let order = choose|order: Seq<usize>| #[trigger] ordered::falling_order(order, counts) && p == order[0];
    ordered::falling_order_is_permutation(order, counts);
    assert(0 <= order[0] < counts.len());
    assert forall|k: int| 0 <= k < counts.len() implies #[trigger] counts[k] <= counts[p as int] by {
        assert(order.contains(k as usize));
        let i = order.index_of(k as usize);
        assert(order[i] == k);
    }
}

/// A masked name shows no more than the three characters at either end.
pub proof fn mask_hides_the_middle(a: Seq<char>, b: Seq<char>)
    requires
        a.len() > 4,
        b.len() > 4,
        a.take(3) == b.take(3),
        a.skip(a.len() - 3) == b.skip(b.len() - 3),
    ensures
        masked(a) == masked(b),
        masked(a).len() == 7,
{
    reveal_strlit("…");
}

/// No account name of more than four characters is shown in full, unless its contact has it as
/// remark or nickname. Left out are the names that equal their own mask: seven characters with an
/// ellipsis in the middle.
pub proof fn account_names_stay_hidden(contacts: Map<Seq<char>, Contact>, username: Seq<char>)
    requires
        username.len() > 4,
        !(username.len() == 7 && username[3] == '…'),
        name_of(contacts, username) == username,
    ensures
        contacts.contains_key(username),
        ({
            let c = contacts[username];
            (c.remark is Some && c.remark->0@ == username) || (c.nickname is Some && c.nickname->0@ == username)
        }),
{
    reveal_strlit("…");
    if !contacts.contains_key(username) || !(model::is_given(contacts[username].remark) || model::is_given(
        contacts[username].nickname,
    )) {
        assert(masked(username).len() == 7);
        assert(masked(username)[3] == '…');
    }
}

}
