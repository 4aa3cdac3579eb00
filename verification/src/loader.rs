//! Turning rows of the databases into contacts, conversations and messages. A conversation may be
//! spread over several databases, which are put together here.

use vstd::prelude::*;
use vstd::string::*;

use crate::content;
use crate::model::{Contact, Conversation, MessageFact, TextMessage};
use crate::ordered;
use crate::ordered::SortedMap;
use crate::schema;
use crate::text;

verus! {

/// The sender of one's own messages.
pub const SELF_SENDER: i64 = 0;

/// The sender of all other messages.
pub const OTHER_SENDER: i64 = 1;

/// The base type of text messages.
pub const TEXT_TYPE: i64 = 1;

/// A directory with decrypted databases.
pub struct WeChatData {
    pub root: String,
}

/// The directory holds no contact database.
pub struct MissingContacts {
    pub root: String,
}

/// A row of the contact table.
pub struct ContactRow {
    pub id: i64,
    pub username: String,
    pub nickname: Option<String>,
    pub remark: Option<String>,
    pub alias: Option<String>,
    /// Not zero for a group.
    pub room: i64,
}

/// A row of the session table.
pub struct SessionRow {
    pub username: String,
    pub db_stem: String,
    pub table_name: String,
}

/// A row of a message table.
pub struct FactRow {
    pub create_time: i64,
    /// The sender's row in the name table of the same database.
    pub sender: i64,
    /// The packed type code.
    pub local_type: i64,
}

/// The messages of a conversation in one database, and one's own row in its name table.
pub struct FactShard {
    pub self_rowid: Option<i64>,
    pub rows: Vec<FactRow>,
}

/// A row of a message table with its stored text.
pub struct TextRow {
    pub create_time: i64,
    pub sender: i64,
    pub local_type: i64,
    pub content: Vec<u8>,
    pub compressed: Vec<u8>,
}

/// The messages of a conversation in one database with their stored texts.
pub struct TextShard {
    pub self_rowid: Option<i64>,
    pub rows: Vec<TextRow>,
}

/// A contact as its row says.
pub open spec fn is_contact(c: Contact, r: ContactRow) -> bool {
    &&& c.id == r.id
    &&& c.username == r.username
    &&& c.nickname == r.nickname
    &&& c.remark == r.remark
    &&& c.alias == r.alias
    &&& c.is_chatroom == (r.room != 0)
}

/// The contact of a row.
pub fn contact_of(r: ContactRow) -> (c: Contact)
    ensures
        is_contact(c, r),
{
    Contact {
        id: r.id,
        username: r.username,
        nickname: r.nickname,
        remark: r.remark,
        alias: r.alias,
        is_chatroom: r.room != 0,
    }
}

/// The items without those that came before.
pub open spec fn distinct(s: Seq<Seq<char>>) -> Seq<Seq<char>>
    decreases s.len(),
{
    if s.len() == 0 {
        Seq::empty()
    } else {
        let before = distinct(s.drop_last());
        if before.contains(s.last()) {
            before
        } else {
            before.push(s.last())
        }
    }
}

/// No item of `distinct` occurs twice, and none is missing.
pub proof fn distinct_items(s: Seq<Seq<char>>)
    ensures
        distinct(s).no_duplicates(),
        forall|x: Seq<char>| #[trigger] distinct(s).contains(x) <==> s.contains(x),
    decreases s.len(),
{
    if s.len() > 0 {
        let less = s.drop_last();
        distinct_items(less);
        let before = distinct(less);
        let now = distinct(s);
        assert forall|x: Seq<char>| #[trigger] now.contains(x) <==> s.contains(x) by {
            if s.contains(x) {
                let i = s.index_of(x);
                if i < less.len() {
                    assert(less[i] == x);
                    assert(before.contains(x));
                    let k = before.index_of(x);
                    assert(now[k] == x);
                } else if !before.contains(x) {
                    assert(now[before.len() as int] == x);
                }
            }
            if now.contains(x) {
                let k = now.index_of(x);
                if k < before.len() {
                    assert(before[k] == x);
                    assert(before.contains(x));
                    let i = less.index_of(x);
                    assert(s[i] == x);
                } else {
                    assert(s[s.len() - 1] == x);
                }
            }
        }
    }
}

/// The names in the rows.
pub open spec fn users(rows: Seq<SessionRow>) -> Seq<Seq<char>> {
    rows.map_values(|r: SessionRow| r.username@)
}

/// The databases in the rows with the name.
pub open spec fn stems_of(rows: Seq<SessionRow>, user: Seq<char>) -> Seq<Seq<char>>
    decreases rows.len(),
{
    if rows.len() == 0 {
        Seq::empty()
    } else {
        let before = stems_of(rows.drop_last(), user);
        if rows.last().username@ == user {
            before.push(rows.last().db_stem@)
        } else {
            before
        }
    }
}

/// The table in the first row with the name.
pub open spec fn table_of(rows: Seq<SessionRow>, user: Seq<char>) -> Option<Seq<char>>
    decreases rows.len(),
{
    if rows.len() == 0 {
        None
    } else {
        match table_of(rows.drop_last(), user) {
            Some(t) => Some(t),
            None => if rows.last().username@ == user {
                Some(rows.last().table_name@)
            } else {
                None
            },
        }
    }
}

/// The names of the conversations.
pub open spec fn conv_users(convs: Seq<Conversation>) -> Seq<Seq<char>> {
    convs.map_values(|c: Conversation| c.username@)
}

/// `convs` holds one conversation for every name, in the order of the rows, with all databases that
/// the rows give for it.
pub open spec fn are_conversations(convs: Seq<Conversation>, rows: Seq<SessionRow>) -> bool {
    &&& conv_users(convs) == distinct(users(rows))
    &&& forall|i: int| 0 <= i < convs.len() ==> is_conversation(#[trigger] convs[i], rows)
}

/// `c` is what the rows say of its name.
pub open spec fn is_conversation(c: Conversation, rows: Seq<SessionRow>) -> bool {
    &&& text::texts(c.db_stems@) == distinct(stems_of(rows, c.username@))
    &&& Some(c.table_name@) == table_of(rows, c.username@)
    &&& c.msg_count is None
}

proof fn absent_user(rows: Seq<SessionRow>, user: Seq<char>)
    requires
        !users(rows).contains(user),
    ensures
        stems_of(rows, user).len() == 0,
        table_of(rows, user) is None,
    decreases rows.len(),
{
    if rows.len() > 0 {
        let less = rows.drop_last();
        assert(users(rows)[rows.len() - 1] == rows.last().username@);
        assert(!users(less).contains(user)) by {
            if users(less).contains(user) {
                let i = users(less).index_of(user);
                assert(users(rows)[i] == user);
            }
        }
        absent_user(less, user);
    }
}

/// Whether one of the texts is the given one.
fn holds(parts: &Vec<String>, t: &str) -> (r: bool)
    ensures
        r == text::texts(parts@).contains(t@),
{
    let mut i: usize = 0;
    while i < parts.len()
        invariant
            i <= parts@.len(),
            forall|k: int| 0 <= k < i ==> text::texts(parts@)[k] != t@,
        decreases parts@.len() - i,
    {
        assert(text::texts(parts@)[i as int] == parts@[i as int]@);
        if text::same(parts[i].as_str(), t) {
            return true;
        }
        i = i + 1;
    }
    false
}

/// The positions of the conversations by name.
spec fn indexes(index: SortedMap<String, usize>, convs: Seq<Conversation>) -> bool {
    &&& index.wf()
    &&& forall|u: Seq<char>| #[trigger] index.map().contains_key(u) <==> conv_users(convs).contains(u)
    &&& forall|u: Seq<char>| #[trigger]
        index.map().contains_key(u) ==> index.map()[u] < convs.len() && convs[index.map()[u] as int].username@ == u
}

impl WeChatData {
    /// A directory is accepted where it holds the contact database.
    pub fn open(root: String, has_contacts: bool) -> (r: Result<Self, MissingContacts>)
        ensures
            match r {
                Ok(data) => has_contacts && data.root == root,
                Err(e) => !has_contacts && e.root == root,
            },
    {
        if has_contacts {
            Ok(WeChatData { root })
        } else {
            Err(MissingContacts { root })
        }
    }

    /// The file name of a database.
    pub fn db_file(&self, stem: &str) -> (f: String)
        ensures
            f@ == stem@ + ".db"@,
    {
        let mut f = stem.to_string();
        f.append(".db");
        f
    }

    /// The contacts in the rows of the contact table.
    pub fn load_contacts(&self, rows: Vec<ContactRow>) -> (contacts: Vec<Contact>)
        ensures
            contacts@.len() == rows@.len(),
            forall|i: int| 0 <= i < rows@.len() ==> is_contact(#[trigger] contacts@[i], rows@[i]),
    {
        let ghost all = rows@;
        let mut rest = rows;
        let mut backwards: Vec<Contact> = Vec::new();
        while rest.len() > 0
            invariant
                rest@ == all.take(rest@.len() as int),
                rest@.len() <= all.len(),
                backwards@.len() == all.len() - rest@.len(),
                forall|i: int|
                    0 <= i < backwards@.len() ==> is_contact(#[trigger] backwards@[i], all[all.len() - 1 - i]),
            decreases rest@.len(),
        {
            if let Some(row) = rest.pop() {
                backwards.push(contact_of(row));
            }
        }
        let ghost reversed = backwards@;
        let mut contacts: Vec<Contact> = Vec::new();
        while backwards.len() > 0
            invariant
                backwards@ == reversed.take(backwards@.len() as int),
                backwards@.len() <= reversed.len(),
                reversed.len() == all.len(),
                contacts@.len() == reversed.len() - backwards@.len(),
                forall|i: int|
                    0 <= i < reversed.len() ==> is_contact(#[trigger] reversed[i], all[all.len() - 1 - i]),
                forall|i: int| 0 <= i < contacts@.len() ==> is_contact(#[trigger] contacts@[i], all[i]),
            decreases backwards@.len(),
        {
            let ghost n = backwards@.len();
            if let Some(c) = backwards.pop() {
                assert(is_contact(reversed[n - 1], all[all.len() - n]));
                contacts.push(c);
            }
        }
        contacts
    }

    /// The conversations in the rows of the session table.
    pub fn load_conversations(&self, rows: &Vec<SessionRow>) -> (convs: Vec<Conversation>)
        ensures
            are_conversations(convs@, rows@),
    {
        let mut convs: Vec<Conversation> = Vec::new();
        let mut index: SortedMap<String, usize> = SortedMap::new();
        let mut i: usize = 0;
        assert(conv_users(convs@) =~= distinct(users(rows@.take(0))));
        while i < rows.len()
            invariant
                i <= rows@.len(),
                are_conversations(convs@, rows@.take(i as int)),
                indexes(index, convs@),
            decreases rows@.len() - i,
        {
            let ghost done = rows@.take(i as int);
            let ghost now = rows@.take(i + 1);
            let ghost before = convs@;
            let ghost r = rows@[i as int];
            proof {
                assert(now.drop_last() =~= done);
                assert(users(now).drop_last() =~= users(done));
                assert(users(now).last() == r.username@);
                distinct_items(users(done));
            }
            let found: Option<usize> = match index.get(&rows[i].username) {
                Some(p) => Some(*p),
                None => None,
            };
            match found {
                Some(p) => {
                    if !holds(&convs[p].db_stems, rows[i].db_stem.as_str()) {
                        let stem = rows[i].db_stem.clone();
                        convs[p].db_stems.push(stem);
                        assert(text::texts(convs@[p as int].db_stems@) =~= text::texts(before[p as int].db_stems@).push(
                            r.db_stem@,
                        ));
                    }
                    proof {
                        assert(conv_users(convs@) =~= conv_users(before));
                        assert(is_conversation(before[p as int], done));
                        let stems = stems_of(done, r.username@);
                        assert(stems.push(r.db_stem@).drop_last() =~= stems);
                        assert forall|k: int| 0 <= k < convs@.len() implies is_conversation(
                            #[trigger] convs@[k],
                            now,
                        ) by {
                            assert(conv_users(before)[k] == before[k].username@);
                            assert(conv_users(before)[p as int] == r.username@);
                            assert(is_conversation(before[k], done));
                        }
                    }
                },
                None => {
                    proof {
                        assert(!users(done).contains(r.username@));
                        absent_user(done, r.username@);
                    }
                    let mut db_stems: Vec<String> = Vec::new();
                    db_stems.push(rows[i].db_stem.clone());
                    let ghost first = db_stems@;
                    let c = Conversation {
                        username: rows[i].username.clone(),
                        db_stems,
                        table_name: rows[i].table_name.clone(),
                        msg_count: None,
                    };
                    let at = convs.len();
                    index.set(rows[i].username.clone(), at);
                    convs.push(c);
                    proof {
                        let stems = stems_of(now, r.username@);
                        assert(stems =~= seq![r.db_stem@]);
                        assert(stems.drop_last() =~= Seq::<Seq<char>>::empty());
                        assert(distinct(stems.drop_last()) =~= Seq::<Seq<char>>::empty());
                        assert(distinct(stems) =~= seq![r.db_stem@]);
                        assert(text::texts(first) =~= seq![r.db_stem@]);
                        assert(conv_users(convs@) =~= conv_users(before).push(r.username@));
                        assert forall|k: int| 0 <= k < convs@.len() implies is_conversation(
                            #[trigger] convs@[k],
                            now,
                        ) by {
                            if k < before.len() {
                                assert(conv_users(before)[k] == before[k].username@);
                                assert(conv_users(before).contains(before[k].username@));
                                assert(is_conversation(before[k], done));
                            }
                        }
                        assert forall|u: Seq<char>| #[trigger] index.map().contains_key(u) <==> conv_users(
                            convs@,
                        ).contains(u) by {
                            if conv_users(before).contains(u) {
                                let k = conv_users(before).index_of(u);
                                assert(conv_users(convs@)[k] == u);
                            }
                            assert(conv_users(convs@)[before.len() as int] == r.username@);
                            if conv_users(convs@).contains(u) {
                                let k = conv_users(convs@).index_of(u);
                                if k < before.len() {
                                    assert(conv_users(before)[k] == u);
                                }
                            }
                        }
                    }
                },
            }
            i = i + 1;
        }
        assert(rows@.take(i as int) =~= rows@);
        convs
    }
}

/// Who sent a message, seen from the database with one's own row `self_rowid`.
pub open spec fn side_of(self_rowid: Option<i64>, sender: i64) -> i64 {
    if self_rowid == Some(sender) {
        SELF_SENDER
    } else {
        OTHER_SENDER
    }
}

/// Who sent a message.
pub fn normal_sender(self_rowid: Option<i64>, sender: i64) -> (r: i64)
    ensures
        r == side_of(self_rowid, sender),
{
    match self_rowid {
        Some(me) => if me == sender {
            SELF_SENDER
        } else {
            OTHER_SENDER
        },
        None => OTHER_SENDER,
    }
}

/// The messages of one database.
pub open spec fn shard_facts(s: FactShard) -> Seq<MessageFact> {
    s.rows@.map_values(
        |r: FactRow|
            MessageFact {
                create_time: r.create_time,
                sender_id: side_of(s.self_rowid, r.sender),
                base_type: (r.local_type as int % 0x1_0000_0000) as i64,
            },
    )
}

/// The messages of all databases, one after the other.
pub open spec fn all_facts(shards: Seq<FactShard>) -> Seq<MessageFact>
    decreases shards.len(),
{
    if shards.len() == 0 {
        Seq::empty()
    } else {
        all_facts(shards.drop_last()) + shard_facts(shards.last())
    }
}

/// The times of the messages.
pub open spec fn fact_times(facts: Seq<MessageFact>) -> Seq<i64> {
    facts.map_values(|f: MessageFact| f.create_time)
}

/// `out` holds `facts` in order of their times, messages of the same time in their own order.
pub open spec fn in_time_order(out: Seq<MessageFact>, facts: Seq<MessageFact>) -> bool {
    exists|order: Seq<usize>| #[trigger]
        ordered::rising_order(order, fact_times(facts)) && out == order.map_values(|p: usize| facts[p as int])
}

/// Appends the messages of one database.
fn push_facts(all: &mut Vec<MessageFact>, times: &mut Vec<i64>, shard: &FactShard)
    requires
        old(times)@ == fact_times(old(all)@),
    ensures
        final(all)@ == old(all)@ + shard_facts(*shard),
        final(times)@ == fact_times(final(all)@),
{
    let ghost start = all@;
    let mut i: usize = 0;
    assert(start + shard_facts(*shard).take(0) =~= start);
    while i < shard.rows.len()
        invariant
            i <= shard.rows@.len(),
            all@ == start + shard_facts(*shard).take(i as int),
            times@ == fact_times(all@),
        decreases shard.rows@.len() - i,
    {
        let f = MessageFact {
            create_time: shard.rows[i].create_time,
            sender_id: normal_sender(shard.self_rowid, shard.rows[i].sender),
            base_type: schema::base_type(shard.rows[i].local_type),
        };
        let ghost before = all@;
        all.push(f);
        times.push(f.create_time);
        proof {
            assert(shard_facts(*shard)[i as int] == f);
            assert(start + shard_facts(*shard).take(i + 1) =~= (start + shard_facts(*shard).take(i as int)).push(f));
            assert(fact_times(before.push(f)) =~= fact_times(before).push(f.create_time));
        }
        i = i + 1;
    }
    assert(shard_facts(*shard).take(i as int) =~= shard_facts(*shard));
}

/// The position holds a text message.
pub open spec fn is_text_row(r: TextRow) -> bool {
    r.local_type as int % 0x1_0000_0000 == TEXT_TYPE
}

/// The positions of the text messages of one database, up to `n` rows.
pub open spec fn shard_texts(s: TextShard, at: usize, n: nat) -> Seq<(usize, usize)>
    decreases n,
{
    if n == 0 {
        Seq::empty()
    } else {
        let before = shard_texts(s, at, (n - 1) as nat);
        if is_text_row(s.rows@[n - 1]) {
            before.push((at, (n - 1) as usize))
        } else {
            before
        }
    }
}

/// The positions of the text messages of the first `n` databases, one after the other.
pub open spec fn text_positions(shards: Seq<TextShard>, n: nat) -> Seq<(usize, usize)>
    decreases n,
{
    if n == 0 {
        Seq::empty()
    } else {
        text_positions(shards, (n - 1) as nat) + shard_texts(
            shards[n - 1],
            (n - 1) as usize,
            shards[n - 1].rows@.len(),
        )
    }
}

/// The row at a position.
pub open spec fn row_at(shards: Seq<TextShard>, p: (usize, usize)) -> TextRow {
    shards[p.0 as int].rows@[p.1 as int]
}

/// The position exists.
pub open spec fn is_position(shards: Seq<TextShard>, p: (usize, usize)) -> bool {
    p.0 < shards.len() && p.1 < shards[p.0 as int].rows@.len()
}

/// `m` is the text message at the position.
pub open spec fn is_message_at(m: TextMessage, shards: Seq<TextShard>, p: (usize, usize)) -> bool {
    let r = row_at(shards, p);
    &&& m.create_time == r.create_time
    &&& m.sender_id == side_of(shards[p.0 as int].self_rowid, r.sender)
    &&& content::is_text_of(r.content@, r.compressed@, text::text_view(m.text))
}

/// The times of the messages at the positions.
pub open spec fn position_times(shards: Seq<TextShard>, ps: Seq<(usize, usize)>) -> Seq<i64> {
    ps.map_values(|p: (usize, usize)| row_at(shards, p).create_time)
}

/// `out` holds the text messages of all databases in order of their times, those of the same time in
/// their own order.
pub open spec fn are_texts(out: Seq<TextMessage>, shards: Seq<TextShard>) -> bool {
    let ps = text_positions(shards, shards.len());
    exists|order: Seq<usize>| #[trigger]
        ordered::rising_order(order, position_times(shards, ps)) && out.len() == order.len() && forall|k: int|
            0 <= k < out.len() ==> is_message_at(#[trigger] out[k], shards, ps[order[k] as int])
}

/// Finds the text messages of all databases.
fn find_texts(shards: &Vec<TextShard>) -> (r: (Vec<(usize, usize)>, Vec<i64>))
    ensures
        r.0@ == text_positions(shards@, shards@.len()),
        r.1@ == position_times(shards@, r.0@),
        forall|k: int| 0 <= k < r.0@.len() ==> is_position(shards@, #[trigger] r.0@[k]),
{
    let mut ps: Vec<(usize, usize)> = Vec::new();
    let mut times: Vec<i64> = Vec::new();
    let mut i: usize = 0;
    while i < shards.len()
        invariant
            i <= shards@.len(),
            ps@ == text_positions(shards@, i as nat),
            times@ == position_times(shards@, ps@),
            forall|k: int| 0 <= k < ps@.len() ==> is_position(shards@, #[trigger] ps@[k]),
        decreases shards@.len() - i,
    {
        let ghost start = ps@;
        let mut j: usize = 0;
        assert(start + shard_texts(shards@[i as int], i, 0) =~= start);
        while j < shards[i].rows.len()
            invariant
                i < shards@.len(),
                j <= shards@[i as int].rows@.len(),
                ps@ == start + shard_texts(shards@[i as int], i, j as nat),
                times@ == position_times(shards@, ps@),
                forall|k: int| 0 <= k < ps@.len() ==> is_position(shards@, #[trigger] ps@[k]),
            decreases shards@[i as int].rows@.len() - j,
        {
            if schema::base_type(shards[i].rows[j].local_type) == TEXT_TYPE {
                let ghost before = ps@;
                ps.push((i, j));
                times.push(shards[i].rows[j].create_time);
                proof {
                    let part = shard_texts(shards@[i as int], i, j as nat);
                    assert(start + part.push((i, j)) =~= (start + part).push((i, j)));
                    assert(position_times(shards@, before.push((i, j))) =~= position_times(shards@, before).push(
                        row_at(shards@, (i, j)).create_time,
                    ));
                }
            }
            j = j + 1;
        }
        i = i + 1;
    }
    (ps, times)
}

/// What one database holds of a conversation.
pub struct ShardStats {
    pub count: i64,
    /// The names of the senders.
    pub senders: Vec<String>,
    pub time_min: Option<i64>,
    pub time_max: Option<i64>,
    /// Type codes with their messages.
    pub type_dist: Vec<(i64, i64)>,
}

/// What all databases hold of a conversation.
pub struct ConvStats {
    pub count: i64,
    pub distinct_senders: i64,
    pub time_min: Option<i64>,
    pub time_max: Option<i64>,
    /// Type codes with their messages, in order of the codes.
    pub type_dist: Vec<(i64, i64)>,
}

/// The messages of all databases together.
pub open spec fn total_count(shards: Seq<ShardStats>) -> int
    decreases shards.len(),
{
    if shards.len() == 0 {
        0
    } else {
        total_count(shards.drop_last()) + shards.last().count
    }
}

/// The senders of all databases.
pub open spec fn all_senders(shards: Seq<ShardStats>) -> Seq<Seq<char>>
    decreases shards.len(),
{
    if shards.len() == 0 {
        Seq::empty()
    } else {
        all_senders(shards.drop_last()) + text::texts(shards.last().senders@)
    }
}

/// The smaller of two times, where there are two.
pub open spec fn earlier(a: Option<i64>, b: Option<i64>) -> Option<i64> {
    match (a, b) {
        (Some(x), Some(y)) => Some(
            if x <= y {
                x
            } else {
                y
            },
        ),
        (Some(x), None) => Some(x),
        (None, y) => y,
    }
}

/// The larger of two times, where there are two.
pub open spec fn later(a: Option<i64>, b: Option<i64>) -> Option<i64> {
    match (a, b) {
        (Some(x), Some(y)) => Some(
            if x >= y {
                x
            } else {
                y
            },
        ),
        (Some(x), None) => Some(x),
        (None, y) => y,
    }
}

/// The first time of all databases.
pub open spec fn first_time(shards: Seq<ShardStats>) -> Option<i64>
    decreases shards.len(),
{
    if shards.len() == 0 {
        None
    } else {
        earlier(first_time(shards.drop_last()), shards.last().time_min)
    }
}

/// The last time of all databases.
pub open spec fn last_time(shards: Seq<ShardStats>) -> Option<i64>
    decreases shards.len(),
{
    if shards.len() == 0 {
        None
    } else {
        later(last_time(shards.drop_last()), shards.last().time_max)
    }
}

/// The rows of all databases, one after the other.
pub open spec fn all_types(shards: Seq<ShardStats>) -> Seq<(i64, i64)>
    decreases shards.len(),
{
    if shards.len() == 0 {
        Seq::empty()
    } else {
        all_types(shards.drop_last()) + shards.last().type_dist@
    }
}

/// The messages by type, with the rows of the same type added up.
pub open spec fn added_up(rows: Seq<(i64, i64)>) -> Map<i64, i64>
    decreases rows.len(),
{
    if rows.len() == 0 {
        Map::empty()
    } else {
        let before = added_up(rows.drop_last());
        let (t, n) = rows.last();
        before.insert(
            t,
            (if before.contains_key(t) {
                before[t] + n
            } else {
                n as int
            }) as i64,
        )
    }
}

/// No row counts a negative number, and all together fit.
pub open spec fn rows_fit(rows: Seq<(i64, i64)>) -> bool {
    &&& crate::stats::volume::counts_rows(rows)
    &&& crate::stats::volume::row_total(rows) <= i64::MAX
}

/// No count is negative, and all together fit.
pub open spec fn counts_fit(shards: Seq<ShardStats>) -> bool {
    &&& forall|i: int| 0 <= i < shards.len() ==> (#[trigger] shards[i]).count >= 0
    &&& total_count(shards) <= i64::MAX
}

proof fn counts_grow(shards: Seq<ShardStats>, i: int)
    requires
        counts_fit(shards),
        0 <= i <= shards.len(),
    ensures
        0 <= total_count(shards.take(i)) <= total_count(shards),
    decreases shards.len(),
{
    if shards.len() > 0 {
        let less = shards.drop_last();
        assert forall|k: int| 0 <= k < less.len() implies (#[trigger] less[k]).count >= 0 by {
            assert(less[k] == shards[k]);
        }
        assert(shards[shards.len() - 1].count >= 0);
        if i < shards.len() {
            counts_grow(less, i);
            assert(less.take(i) =~= shards.take(i));
        } else {
            counts_grow(less, less.len() as int);
            assert(less.take(less.len() as int) =~= less);
            assert(shards.take(i) =~= shards);
        }
    } else {
        assert(shards.take(i) =~= shards);
    }
}

proof fn added_up_within(rows: Seq<(i64, i64)>)
    requires
        rows_fit(rows),
    ensures
        0 <= crate::stats::volume::row_total(rows),
        forall|t: i64| #[trigger]
            added_up(rows).contains_key(t) ==> 0 <= added_up(rows)[t] <= crate::stats::volume::row_total(rows),
    decreases rows.len(),
{
    if rows.len() > 0 {
        let less = rows.drop_last();
        assert forall|k: int| 0 <= k < less.len() implies (#[trigger] less[k]).1 >= 0 by {
            assert(less[k] == rows[k]);
        }
        assert(rows[rows.len() - 1].1 >= 0);
        added_up_within(less);
        let before = added_up(less);
        let total = crate::stats::volume::row_total(rows);
        assert forall|t: i64| #[trigger] added_up(rows).contains_key(t) implies 0 <= added_up(rows)[t] <= total by {
            if t == rows.last().0 {
                if before.contains_key(t) {
                    assert(0 <= before[t] + rows.last().1 <= total);
                }
            } else {
                assert(before.contains_key(t));
            }
        }
    }
}

/// Adds up rows of the same type.
fn add_up(rows: &Vec<(i64, i64)>) -> (m: SortedMap<i64, i64>)
    requires
        rows_fit(rows@),
    ensures
        m.wf(),
        m.map() == added_up(rows@),
{
    let mut m: SortedMap<i64, i64> = SortedMap::new();
    let mut i: usize = 0;
    while i < rows.len()
        invariant
            i <= rows@.len(),
            rows_fit(rows@),
            m.wf(),
            m.map() == added_up(rows@.take(i as int)),
        decreases rows@.len() - i,
    {
        let ghost done = rows@.take(i as int);
        let ghost now = rows@.take(i + 1);
        proof {
            assert(now.drop_last() =~= done);
            rows_fit_prefix(rows@, i as int);
            rows_fit_prefix(rows@, i + 1);
            added_up_within(done);
            assert(rows@[i as int].1 >= 0);
        }
        let t: i64 = rows[i].0;
        let n: i64 = rows[i].1;
        let kept: i64 = match m.get(&t) {
            Some(c) => *c,
            None => 0,
        };
        m.set(t, kept + n);
        i = i + 1;
    }
    assert(rows@.take(i as int) =~= rows@);
    m
}

proof fn rows_fit_prefix(rows: Seq<(i64, i64)>, i: int)
    requires
        rows_fit(rows),
        0 <= i <= rows.len(),
    ensures
        rows_fit(rows.take(i)),
    decreases rows.len(),
{
    assert forall|k: int| 0 <= k < i implies (#[trigger] rows.take(i)[k]).1 >= 0 by {
        assert(rows[k].1 >= 0);
    }
    if i < rows.len() {
        let less = rows.drop_last();
        assert forall|k: int| 0 <= k < less.len() implies (#[trigger] less[k]).1 >= 0 by {
            assert(less[k] == rows[k]);
        }
        assert(rows[rows.len() - 1].1 >= 0);
        rows_fit_prefix(less, i);
        assert(less.take(i) =~= rows.take(i));
    } else {
        assert(rows.take(i) =~= rows);
    }
}

/// `s` puts together what the databases hold.
pub open spec fn puts_together(s: ConvStats, shards: Seq<ShardStats>) -> bool {
    &&& s.count == total_count(shards)
    &&& s.distinct_senders == distinct(all_senders(shards)).len()
    &&& s.time_min == first_time(shards)
    &&& s.time_max == last_time(shards)
    &&& ordered::keyed(s.type_dist@) == ordered::listing::<i64, i64>(added_up(all_types(shards)))
}

/// Gathers the senders and the types of all databases.
fn gather(shards: &Vec<ShardStats>) -> (r: (Vec<String>, Vec<(i64, i64)>))
    ensures
        text::texts(r.0@) == all_senders(shards@),
        r.1@ == all_types(shards@),
{
    let mut names: Vec<String> = Vec::new();
    let mut rows: Vec<(i64, i64)> = Vec::new();
    let mut i: usize = 0;
    while i < shards.len()
        invariant
            i <= shards@.len(),
            text::texts(names@) == all_senders(shards@.take(i as int)),
            rows@ == all_types(shards@.take(i as int)),
        decreases shards@.len() - i,
    {
        let ghost names_before = text::texts(names@);
        let ghost rows_before = rows@;
        let ghost senders = text::texts(shards@[i as int].senders@);
        let ghost types = shards@[i as int].type_dist@;
        assert(shards@.take(i + 1).drop_last() =~= shards@.take(i as int));
        let mut j: usize = 0;
        assert(names_before + senders.take(0) =~= names_before);
        while j < shards[i].senders.len()
            invariant
                i < shards@.len(),
                j <= shards@[i as int].senders@.len(),
                senders == text::texts(shards@[i as int].senders@),
                text::texts(names@) == names_before + senders.take(j as int),
            decreases shards@[i as int].senders@.len() - j,
        {
            let ghost before = names@;
            let name = shards[i].senders[j].clone();
            let ghost shown = name@;
            names.push(name);
            proof {
                assert(senders[j as int] == shown);
                assert(text::texts(names@) =~= text::texts(before).push(shown));
                assert(names_before + senders.take(j + 1) =~= (names_before + senders.take(j as int)).push(shown));
            }
            j = j + 1;
        }
        assert(senders.take(j as int) =~= senders);
        let mut k: usize = 0;
        assert(rows_before + types.take(0) =~= rows_before);
        while k < shards[i].type_dist.len()
            invariant
                i < shards@.len(),
                k <= shards@[i as int].type_dist@.len(),
                types == shards@[i as int].type_dist@,
                rows@ == rows_before + types.take(k as int),
            decreases shards@[i as int].type_dist@.len() - k,
        {
            rows.push(shards[i].type_dist[k]);
            assert(rows_before + types.take(k + 1) =~= (rows_before + types.take(k as int)).push(types[k as int]));
            k = k + 1;
        }
        assert(types.take(k as int) =~= types);
        i = i + 1;
    }
    assert(shards@.take(i as int) =~= shards@);
    (names, rows)
}

/// How many different texts there are.
fn count_distinct(names: &Vec<String>) -> (n: usize)
    ensures
        n == distinct(text::texts(names@)).len(),
{
    let ghost all = text::texts(names@);
    let mut seen: SortedMap<String, usize> = SortedMap::new();
    let mut n: usize = 0;
    let mut i: usize = 0;
    while i < names.len()
        invariant
            i <= names@.len(),
            all == text::texts(names@),
            seen.wf(),
            n == distinct(all.take(i as int)).len(),
            n <= i,
            forall|u: Seq<char>| #[trigger] seen.map().contains_key(u) <==> distinct(all.take(i as int)).contains(u),
        decreases names@.len() - i,
    {
        let ghost before = distinct(all.take(i as int));
        let ghost now = distinct(all.take(i + 1));
        proof {
            assert(all.take(i + 1).drop_last() =~= all.take(i as int));
            assert(all[i as int] == names@[i as int]@);
        }
        if seen.get(&names[i]).is_none() {
            seen.set(names[i].clone(), i);
            n = n + 1;
            proof {
                assert forall|u: Seq<char>| #[trigger] now.contains(u) <==> before.contains(u) || u == all[i as int] by {
                    if before.contains(u) {
                        assert(now[before.index_of(u)] == u);
                    }
                    assert(now[before.len() as int] == all[i as int]);
                    if now.contains(u) {
                        let k = now.index_of(u);
                        if k < before.len() {
                            assert(before[k] == u);
                        }
                    }
                }
            }
        }
        i = i + 1;
    }
    assert(all.take(i as int) =~= all);
    n
}

/// The sum of the counts that are there.
pub open spec fn given_sum(parts: Seq<Option<i64>>) -> int
    decreases parts.len(),
{
    if parts.len() == 0 {
        0
    } else {
        given_sum(parts.drop_last()) + match parts.last() {
            Some(n) => n as int,
            None => 0,
        }
    }
}

/// The counts that are there are not negative, and together they fit.
pub open spec fn parts_fit(parts: Seq<Option<i64>>) -> bool {
    &&& forall|i: int| 0 <= i < parts.len() ==> ((#[trigger] parts[i]) matches Some(n) ==> n >= 0)
    &&& given_sum(parts) <= i64::MAX
}

proof fn parts_grow(parts: Seq<Option<i64>>, i: int)
    requires
        parts_fit(parts),
        0 <= i <= parts.len(),
    ensures
        0 <= given_sum(parts.take(i)) <= given_sum(parts),
    decreases parts.len(),
{
    if parts.len() > 0 {
        let less = parts.drop_last();
        assert forall|k: int| 0 <= k < less.len() implies ((#[trigger] less[k]) matches Some(n) ==> n >= 0) by {
            assert(less[k] == parts[k]);
        }
        assert(parts[parts.len() - 1] matches Some(n) ==> n >= 0);
        if i < parts.len() {
            parts_grow(less, i);
            assert(less.take(i) =~= parts.take(i));
        } else {
            parts_grow(less, less.len() as int);
            assert(less.take(less.len() as int) =~= less);
            assert(parts.take(i) =~= parts);
        }
    } else {
        assert(parts.take(i) =~= parts);
    }
}

/// Adds up the counts that are there.
pub fn sum_given(parts: &Vec<Option<i64>>) -> (n: i64)
    requires
        parts_fit(parts@),
    ensures
        n == given_sum(parts@),
{
    let mut n: i64 = 0;
    let mut i: usize = 0;
    while i < parts.len()
        invariant
            i <= parts@.len(),
            parts_fit(parts@),
            n == given_sum(parts@.take(i as int)),
        decreases parts@.len() - i,
    {
        proof {
            assert(parts@.take(i + 1).drop_last() =~= parts@.take(i as int));
            parts_grow(parts@, i as int);
            parts_grow(parts@, i + 1);
        }
        if let Some(k) = parts[i] {
            n = n + k;
        }
        i = i + 1;
    }
    assert(parts@.take(i as int) =~= parts@);
    n
}

impl WeChatData {
    /// The messages of every conversation: the counts of its databases added up; one that cannot be
    /// read counts nothing.
    pub fn count_messages_batch(&self, parts: &Vec<Vec<Option<i64>>>) -> (counts: Vec<i64>)
        requires
            forall|i: int| 0 <= i < parts@.len() ==> parts_fit((#[trigger] parts@[i])@),
        ensures
            counts@.len() == parts@.len(),
            forall|i: int| 0 <= i < counts@.len() ==> #[trigger] counts@[i] == given_sum(parts@[i]@),
    {
        let mut counts: Vec<i64> = Vec::new();
        let mut i: usize = 0;
        while i < parts.len()
            invariant
                i <= parts@.len(),
                counts@.len() == i,
                forall|k: int| 0 <= k < parts@.len() ==> parts_fit((#[trigger] parts@[k])@),
                forall|k: int| 0 <= k < i ==> #[trigger] counts@[k] == given_sum(parts@[k]@),
            decreases parts@.len() - i,
        {
            assert(parts_fit(parts@[i as int]@));
            counts.push(sum_given(&parts[i]));
            i = i + 1;
        }
        counts
    }

    /// What all databases hold of a conversation.
    pub fn conversation_stats(&self, shards: &Vec<ShardStats>) -> (s: ConvStats)
        requires
            counts_fit(shards@),
            rows_fit(all_types(shards@)),
            all_senders(shards@).len() <= i64::MAX,
        ensures
            puts_together(s, shards@),
    {
        let mut count: i64 = 0;
        let mut time_min: Option<i64> = None;
        let mut time_max: Option<i64> = None;
        let mut i: usize = 0;
        while i < shards.len()
            invariant
                i <= shards@.len(),
                counts_fit(shards@),
                count == total_count(shards@.take(i as int)),
                time_min == first_time(shards@.take(i as int)),
                time_max == last_time(shards@.take(i as int)),
            decreases shards@.len() - i,
        {
            proof {
                assert(shards@.take(i + 1).drop_last() =~= shards@.take(i as int));
                counts_grow(shards@, i as int);
                counts_grow(shards@, i + 1);
            }
            count = count + shards[i].count;
            time_min = match (time_min, shards[i].time_min) {
                (Some(x), Some(y)) => Some(
                    if x <= y {
                        x
                    } else {
                        y
                    },
                ),
                (Some(x), None) => Some(x),
                (None, y) => y,
            };
            time_max = match (time_max, shards[i].time_max) {
                (Some(x), Some(y)) => Some(
                    if x >= y {
                        x
                    } else {
                        y
                    },
                ),
                (Some(x), None) => Some(x),
                (None, y) => y,
            };
            i = i + 1;
        }
        assert(shards@.take(i as int) =~= shards@);
        let (names, rows) = gather(shards);
        let senders = count_distinct(&names);
        proof {
            distinct_at_most(text::texts(names@));
        }
        let type_dist = add_up(&rows).into_pairs();
        ConvStats { count, distinct_senders: senders as i64, time_min, time_max, type_dist }
    }

    /// The messages of a conversation from all its databases, in order of their times. Senders are
    /// told apart as oneself and all others.
    pub fn message_facts(&self, shards: &Vec<FactShard>) -> (facts: Vec<MessageFact>)
        ensures
            in_time_order(facts@, all_facts(shards@)),
    {
        let mut all: Vec<MessageFact> = Vec::new();
        let mut times: Vec<i64> = Vec::new();
        let mut i: usize = 0;
        assert(times@ =~= fact_times(all@));
        while i < shards.len()
            invariant
                i <= shards@.len(),
                all@ == all_facts(shards@.take(i as int)),
                times@ == fact_times(all@),
            decreases shards@.len() - i,
        {
            assert(shards@.take(i + 1).drop_last() =~= shards@.take(i as int));
            push_facts(&mut all, &mut times, &shards[i]);
            i = i + 1;
        }
        assert(shards@.take(i as int) =~= shards@);
        let order = ordered::rising_positions(&times);
        let mut facts: Vec<MessageFact> = Vec::new();
        let mut k: usize = 0;
        while k < order.len()
            invariant
                k <= order@.len(),
                ordered::rising_order(order@, fact_times(all@)),
                facts@ == order@.take(k as int).map_values(|p: usize| all@[p as int]),
            decreases order@.len() - k,
        {
            let p: usize = order[k];
            assert(0 <= order@[k as int] < fact_times(all@).len());
            facts.push(all[p]);
            assert(order@.take(k + 1).map_values(|p: usize| all@[p as int]) =~= order@.take(k as int).map_values(
                |p: usize| all@[p as int],
            ).push(all@[p as int]));
            k = k + 1;
        }
        assert(order@.take(k as int) =~= order@);
        facts
    }

    /// The text messages of a conversation from all its databases, decoded and in order of their
    /// times.
    pub fn text_messages(&self, shards: &Vec<TextShard>) -> (texts: Vec<TextMessage>)
        ensures
            are_texts(texts@, shards@),
    {
        let (ps, times) = find_texts(shards);
        let order = ordered::rising_positions(&times);
        let mut texts: Vec<TextMessage> = Vec::new();
        let mut k: usize = 0;
        while k < order.len()
            invariant
                k <= order@.len(),
                ps@ == text_positions(shards@, shards@.len()),
                times@ == position_times(shards@, ps@),
                ordered::rising_order(order@, times@),
                forall|j: int| 0 <= j < ps@.len() ==> is_position(shards@, #[trigger] ps@[j]),
                texts@.len() == k,
                forall|j: int| 0 <= j < k ==> is_message_at(#[trigger] texts@[j], shards@, ps@[order@[j] as int]),
            decreases order@.len() - k,
        {
            let at: usize = order[k];
            assert(0 <= order@[k as int] < times@.len());
            assert(is_position(shards@, ps@[at as int]));
            let (s, r) = ps[at];
            let row = &shards[s].rows[r];
            let m = TextMessage {
                create_time: row.create_time,
                sender_id: normal_sender(shards[s].self_rowid, row.sender),
                text: content::decode_msg(row.content.as_slice(), row.compressed.as_slice()),
            };
            assert(is_message_at(m, shards@, ps@[at as int]));
            texts.push(m);
            k = k + 1;
        }
        texts
    }
}

proof fn distinct_at_most(s: Seq<Seq<char>>)
    ensures
        distinct(s).len() <= s.len(),
    decreases s.len(),
{
    if s.len() > 0 {
        distinct_at_most(s.drop_last());
    }
}

/// No message is lost and none is added when the databases are put together.
pub proof fn merging_keeps_messages(out: Seq<MessageFact>, facts: Seq<MessageFact>)
    requires
        in_time_order(out, facts),
        facts.len() <= usize::MAX,
    ensures
        out.len() == facts.len(),
        forall|i: int, j: int| 0 <= i < j < out.len() ==> out[i].create_time <= out[j].create_time,
        forall|f: MessageFact| facts.contains(f) <==> out.contains(f),
{
    let order = choose|order: Seq<usize>| #[trigger]
        ordered::rising_order(order, fact_times(facts)) && out == order.map_values(|p: usize| facts[p as int]);
    let times = fact_times(facts);
    assert forall|i: int, j: int| 0 <= i < j < out.len() implies out[i].create_time <= out[j].create_time by {
        assert(times[order[i] as int] == out[i].create_time);
        assert(times[order[j] as int] == out[j].create_time);
    }
    ordered::rising_order_is_permutation(order, times);
    assert forall|f: MessageFact| facts.contains(f) <==> out.contains(f) by {
        if facts.contains(f) {
            let p = facts.index_of(f);
            assert(order.contains(p as usize));
            let k = order.index_of(p as usize);
            assert(out[k] == f);
        }
        if out.contains(f) {
            let k = out.index_of(f);
            assert(facts[order[k] as int] == f);
        }
    }
}

/// The query for the contacts.
pub fn contacts_query() -> (q: String)
    ensures
        q@ == "SELECT id, username, nick_name, remark, alias, is_in_chat_room FROM contact"@,
{
    "SELECT id, username, nick_name, remark, alias, is_in_chat_room FROM contact".to_string()
}

/// The query for the sessions.
pub fn sessions_query() -> (q: String)
    ensures
        q@ == "SELECT username, db_stem, table_name FROM session_last_message"@,
{
    "SELECT username, db_stem, table_name FROM session_last_message".to_string()
}

/// The query for the number of rows of a table.
pub fn count_query(table: &str) -> (q: String)
    ensures
        q@ == "SELECT count(*) FROM "@ + schema::quoted(table@),
{
    let mut q = "SELECT count(*) FROM ".to_string();
    q.append(schema::quote_ident(table).as_str());
    q
}

/// The query for the first and last time of a table.
pub fn span_query(table: &str) -> (q: String)
    ensures
        q@ == "SELECT min(create_time), max(create_time) FROM "@ + schema::quoted(table@),
{
    let mut q = "SELECT min(create_time), max(create_time) FROM ".to_string();
    q.append(schema::quote_ident(table).as_str());
    q
}

/// The query for the messages of a table by type code.
pub fn local_types_query(table: &str) -> (q: String)
    ensures
        q@ == "SELECT local_type, count(*) FROM "@ + schema::quoted(table@) + " GROUP BY local_type"@,
{
    let mut q = "SELECT local_type, count(*) FROM ".to_string();
    q.append(schema::quote_ident(table).as_str());
    q.append(" GROUP BY local_type");
    q
}

/// The query for the messages of a table in their order.
pub fn facts_query(table: &str) -> (q: String)
    ensures
        q@ == "SELECT create_time, real_sender_id, local_type FROM "@ + schema::quoted(table@) + " ORDER BY sort_seq"@,
{
    let mut q = "SELECT create_time, real_sender_id, local_type FROM ".to_string();
    q.append(schema::quote_ident(table).as_str());
    q.append(" ORDER BY sort_seq");
    q
}

/// The query for the stored texts of a table in their order.
pub fn texts_query(table: &str) -> (q: String)
    ensures
        q@ == "SELECT create_time, real_sender_id, local_type, message_content, compress_content FROM "@
            + schema::quoted(table@) + " ORDER BY sort_seq"@,
{
    let mut q =
        "SELECT create_time, real_sender_id, local_type, message_content, compress_content FROM ".to_string();
    q.append(schema::quote_ident(table).as_str());
    q.append(" ORDER BY sort_seq");
    q
}

/// The query for the names of the senders of a table; one without a name goes by its row.
pub fn senders_query(table: &str) -> (q: String)
    ensures
        q@
            == "SELECT DISTINCT coalesce(n.user_name, '#' || m.real_sender_id) FROM "@ + schema::quoted(table@)
            + " m LEFT JOIN Name2Id n ON m.real_sender_id = n.rowid WHERE m.real_sender_id IS NOT NULL"@,
{
    let mut q = "SELECT DISTINCT coalesce(n.user_name, '#' || m.real_sender_id) FROM ".to_string();
    q.append(schema::quote_ident(table).as_str());
    q.append(" m LEFT JOIN Name2Id n ON m.real_sender_id = n.rowid WHERE m.real_sender_id IS NOT NULL");
    q
}

/// The query for the row of a name in the name table.
pub fn self_query() -> (q: String)
    ensures
        q@ == "SELECT rowid FROM Name2Id WHERE user_name = ?1"@,
{
    "SELECT rowid FROM Name2Id WHERE user_name = ?1".to_string()
}

}
