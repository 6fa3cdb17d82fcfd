use vstd::prelude::*;
use crate::errors::DbError;
use crate::permissions::{contains_label, copy_labels, labels_of, RolePermissions};
use crate::lookup::{first_index, lemma_first_index, lemma_first_index_at};
use crate::roles::{find_role, role_ids, Role, RoleView};

verus! {

/// Where a channel is hosted.
#[derive(PartialEq, Eq, Structural, Clone, Copy, Debug)]
pub enum ChannelType {
    ServerHosted,
    Ghosted,
}

/// A channel as values.
pub struct ChannelView {
    pub id: Seq<char>,
    pub channel_type: ChannelType,
    pub roles: Seq<(Seq<char>, Seq<char>)>,
    pub default_role: Seq<char>,
    pub labels: Seq<Seq<char>>,
    pub description: Seq<char>,
    pub pinned_block: Option<Seq<char>>,
    pub title: Seq<char>,
    pub activity_table: Seq<char>,
}

/// A collaborative space: its labels gate what roles may do on it, `roles`
/// gives some users a role of their own (user name, role id), and everyone
/// else has `default_role`.
pub struct Channel {
    pub id: String,
    pub channel_type: ChannelType,
    pub roles: Vec<(String, String)>,
    pub default_role: String,
    pub labels: Vec<String>,
    pub description: String,
    pub pinned_block: Option<String>,
    pub title: String,
    pub activity_table: String,
}

/// The role overrides of a channel as values.
pub open spec fn pairs_of(v: Seq<(String, String)>) -> Seq<(Seq<char>, Seq<char>)> {
    v.map_values(|p: (String, String)| (p.0@, p.1@))
}

/// An optional string as values.
pub open spec fn opt_of(o: Option<String>) -> Option<Seq<char>> {
    match o {
        Some(s) => Some(s@),
        None => None,
    }
}

impl View for Channel {
    type V = ChannelView;

    open spec fn view(&self) -> ChannelView {
        ChannelView {
            id: self.id@,
            channel_type: self.channel_type,
            roles: pairs_of(self.roles@),
            default_role: self.default_role@,
            labels: labels_of(self.labels@),
            description: self.description@,
            pinned_block: opt_of(self.pinned_block),
            title: self.title@,
            activity_table: self.activity_table@,
        }
    }
}

/// A copy of an optional string.
pub fn copy_opt(o: &Option<String>) -> (r: Option<String>)
    ensures
        r == *o,
        opt_of(r) == opt_of(*o),
{
    match o {
        Some(s) => Some(s.clone()),
        None => None,
    }
}

impl Channel {
    /// A copy of this channel.
    pub fn copied(&self) -> (r: Channel)
        ensures
            r@ == self@,
    {
        let mut roles: Vec<(String, String)> = Vec::new();
        let mut i: usize = 0;
        while i < self.roles.len()
            invariant
                0 <= i <= self.roles.len(),
                pairs_of(roles@) == pairs_of(self.roles@.take(i as int)),
            decreases self.roles.len() - i,
        {
            let ghost before = roles@;
            let p = (self.roles[i].0.clone(), self.roles[i].1.clone());
            roles.push(p);
            assert(pairs_of(roles@) =~= pairs_of(before).push(pairs_of(self.roles@)[i as int]));
            assert(pairs_of(self.roles@.take(i as int + 1)) =~= pairs_of(
                self.roles@.take(i as int),
            ).push(pairs_of(self.roles@)[i as int]));
            i += 1;
        }
        assert(self.roles@.take(self.roles.len() as int) =~= self.roles@);
        Channel {
            id: self.id.clone(),
            channel_type: self.channel_type,
            roles,
            default_role: self.default_role.clone(),
            labels: copy_labels(&self.labels),
            description: self.description.clone(),
            pinned_block: copy_opt(&self.pinned_block),
            title: self.title.clone(),
            activity_table: self.activity_table.clone(),
        }
    }
}

/// A block as values.
pub struct BlockView {
    pub id: Seq<char>,
    pub content: Seq<char>,
    pub owner: Seq<char>,
    pub connected_channels: Seq<Seq<char>>,
}

/// A unit of content, owned by the user who made it and connected to any
/// number of channels.
pub struct Block {
    pub id: String,
    pub content: String,
    pub owner: String,
    pub connected_channels: Vec<String>,
}

impl View for Block {
    type V = BlockView;

    open spec fn view(&self) -> BlockView {
        BlockView {
            id: self.id@,
            content: self.content@,
            owner: self.owner@,
            connected_channels: labels_of(self.connected_channels@),
        }
    }
}

impl Block {
    /// A copy of this block.
    pub fn copied(&self) -> (r: Block)
        ensures
            r@ == self@,
    {
        Block {
            id: self.id.clone(),
            content: self.content.clone(),
            owner: self.owner.clone(),
            connected_channels: copy_labels(&self.connected_channels),
        }
    }
}

/// The ids of a list of channels, in order.
pub open spec fn channel_ids(channels: Seq<ChannelView>) -> Seq<Seq<char>> {
    channels.map_values(|c: ChannelView| c.id)
}

/// The ids of a list of blocks, in order.
pub open spec fn block_ids(blocks: Seq<BlockView>) -> Seq<Seq<char>> {
    blocks.map_values(|b: BlockView| b.id)
}

/// The store's records as values.
pub struct StoreView {
    pub roles: Seq<RoleView>,
    pub channels: Seq<ChannelView>,
    pub blocks: Seq<BlockView>,
}

/// `ids` without any `id`, the others kept in order.
pub open spec fn without(ids: Seq<Seq<char>>, id: Seq<char>) -> Seq<Seq<char>>
    decreases ids.len(),
{
    if ids.len() == 0 {
        ids
    } else if ids.last() == id {
        without(ids.drop_last(), id)
    } else {
        without(ids.drop_last(), id).push(ids.last())
    }
}

/// A copy of `labels` without any `label`.
fn remove_label(labels: &Vec<String>, label: &String) -> (r: Vec<String>)
    ensures
        labels_of(r@) == without(labels_of(labels@), label@),
{
    let mut r: Vec<String> = Vec::new();
    let mut i: usize = 0;
    while i < labels.len()
        invariant
            0 <= i <= labels.len(),
            labels_of(r@) == without(labels_of(labels@).take(i as int), label@),
        decreases labels.len() - i,
    {
        let ghost before = r@;
        let ghost pre = labels_of(labels@).take(i as int + 1);
        assert(pre.drop_last() =~= labels_of(labels@).take(i as int));
        assert(pre.last() == labels@[i as int]@);
        if labels[i] != *label {
            r.push(labels[i].clone());
            assert(labels_of(r@) =~= labels_of(before).push(labels@[i as int]@));
        }
        i += 1;
    }
    assert(labels_of(labels@).take(labels.len() as int) =~= labels_of(labels@));
    r
}

impl StoreView {
    /// The first channel with the id `id`.
    pub open spec fn channel(self, id: Seq<char>) -> Option<ChannelView> {
        let i = first_index(channel_ids(self.channels), id);
        if i < 0 {
            None
        } else {
            Some(self.channels[i])
        }
    }

    /// The first block with the id `id`.
    pub open spec fn block(self, id: Seq<char>) -> Option<BlockView> {
        let i = first_index(block_ids(self.blocks), id);
        if i < 0 {
            None
        } else {
            Some(self.blocks[i])
        }
    }

    /// The store with the first channel of id `id` replaced by `c`.
    pub open spec fn with_channel(self, id: Seq<char>, c: ChannelView) -> StoreView {
        StoreView {
            channels: self.channels.update(first_index(channel_ids(self.channels), id), c),
            ..self
        }
    }

    /// The store with the first block of id `id` replaced by `b`.
    pub open spec fn with_block(self, id: Seq<char>, b: BlockView) -> StoreView {
        StoreView { blocks: self.blocks.update(first_index(block_ids(self.blocks), id), b), ..self }
    }
}

/// An in-memory document store: the roles, channels and blocks that the
/// engine fetches by id and updates one record at a time. Where two records
/// share an id, the first one is the one that is read and written.
pub struct Store {
    roles: Vec<Role>,
    channels: Vec<Channel>,
    blocks: Vec<Block>,
}

impl View for Store {
    type V = StoreView;

    closed spec fn view(&self) -> StoreView {
        StoreView {
            roles: self.roles@.map_values(|r: Role| r@),
            channels: self.channels@.map_values(|c: Channel| c@),
            blocks: self.blocks@.map_values(|b: Block| b@),
        }
    }
}

impl Store {
    /// A store that holds nothing.
    pub fn new() -> (r: Store)
        ensures
            r@.roles.len() == 0,
            r@.channels.len() == 0,
            r@.blocks.len() == 0,
    {
        Store { roles: Vec::new(), channels: Vec::new(), blocks: Vec::new() }
    }

    /// Adds a role after those already held.
    pub fn insert_role(&mut self, role: Role)
        ensures
            final(self)@ == (StoreView { roles: old(self)@.roles.push(role@), ..old(self)@ }),
    {
        self.roles.push(role);
        assert(self@.roles =~= old(self)@.roles.push(role@));
    }

    /// Adds a channel after those already held.
    pub fn insert_channel(&mut self, channel: Channel)
        ensures
            final(self)@ == (StoreView {
                channels: old(self)@.channels.push(channel@),
                ..old(self)@
            }),
    {
        self.channels.push(channel);
        assert(self@.channels =~= old(self)@.channels.push(channel@));
    }

    /// Adds a block after those already held.
    pub fn insert_block(&mut self, block: Block)
        ensures
            final(self)@ == (StoreView { blocks: old(self)@.blocks.push(block@), ..old(self)@ }),
    {
        self.blocks.push(block);
        assert(self@.blocks =~= old(self)@.blocks.push(block@));
    }

    fn role_index(&self, id: &String) -> (r: Option<usize>)
        ensures
            r is None <==> first_index(role_ids(self@.roles), id@) < 0,
            r is Some ==> r->0 as int == first_index(role_ids(self@.roles), id@),
            r is Some ==> r->0 < self.roles.len(),
            self@.roles.len() == self.roles.len(),
    {
        let ghost ids = role_ids(self@.roles);
        let mut i: usize = 0;
        while i < self.roles.len()
            invariant
                0 <= i <= self.roles.len(),
                ids == role_ids(self@.roles),
                ids.len() == self.roles.len(),
                forall|j: int| 0 <= j < i ==> ids[j] != id@,
            decreases self.roles.len() - i,
        {
            assert(ids[i as int] == self.roles@[i as int].id@);
            if self.roles[i].id == *id {
                proof {
                    lemma_first_index_at(ids, id@, i as int);
                }
                return Some(i);
            }
            i += 1;
        }
        proof {
            lemma_first_index(ids, id@);
            if ids.contains(id@) {
                let k = choose|k: int| 0 <= k < ids.len() && ids[k] == id@;
                assert(ids[k] != id@);
            }
        }
        None
    }

    fn channel_index(&self, id: &String) -> (r: Option<usize>)
        ensures
            r is None <==> first_index(channel_ids(self@.channels), id@) < 0,
            r is Some ==> r->0 as int == first_index(channel_ids(self@.channels), id@),
            r is Some ==> r->0 < self.channels.len(),
            self@.channels.len() == self.channels.len(),
    {
        let ghost ids = channel_ids(self@.channels);
        let mut i: usize = 0;
        while i < self.channels.len()
            invariant
                0 <= i <= self.channels.len(),
                ids == channel_ids(self@.channels),
                ids.len() == self.channels.len(),
                forall|j: int| 0 <= j < i ==> ids[j] != id@,
            decreases self.channels.len() - i,
        {
            assert(ids[i as int] == self.channels@[i as int].id@);
            if self.channels[i].id == *id {
                proof {
                    lemma_first_index_at(ids, id@, i as int);
                }
                return Some(i);
            }
            i += 1;
        }
        proof {
            lemma_first_index(ids, id@);
            if ids.contains(id@) {
                let k = choose|k: int| 0 <= k < ids.len() && ids[k] == id@;
                assert(ids[k] != id@);
            }
        }
        None
    }

    fn block_index(&self, id: &String) -> (r: Option<usize>)
        ensures
            r is None <==> first_index(block_ids(self@.blocks), id@) < 0,
            r is Some ==> r->0 as int == first_index(block_ids(self@.blocks), id@),
            r is Some ==> r->0 < self.blocks.len(),
            self@.blocks.len() == self.blocks.len(),
    {
        let ghost ids = block_ids(self@.blocks);
        let mut i: usize = 0;
        while i < self.blocks.len()
            invariant
                0 <= i <= self.blocks.len(),
                ids == block_ids(self@.blocks),
                ids.len() == self.blocks.len(),
                forall|j: int| 0 <= j < i ==> ids[j] != id@,
            decreases self.blocks.len() - i,
        {
            assert(ids[i as int] == self.blocks@[i as int].id@);
            if self.blocks[i].id == *id {
                proof {
                    lemma_first_index_at(ids, id@, i as int);
                }
                return Some(i);
            }
            i += 1;
        }
        proof {
            lemma_first_index(ids, id@);
            if ids.contains(id@) {
                let k = choose|k: int| 0 <= k < ids.len() && ids[k] == id@;
                assert(ids[k] != id@);
            }
        }
        None
    }

    /// The role with the id `id`.
    pub fn get_role(&self, id: &String) -> (r: Result<Role, DbError>)
        ensures
            match find_role(self@.roles, id@) {
                None => r == Err::<Role, DbError>(DbError::NotFound),
                Some(v) => r is Ok && r->Ok_0@ == v,
            },
    {
        match self.role_index(id) {
            None => Err(DbError::NotFound),
            Some(i) => Ok(self.roles[i].copied()),
        }
    }

    /// The channel with the id `id`.
    pub fn get_channel(&self, id: &String) -> (r: Result<Channel, DbError>)
        ensures
            match self@.channel(id@) {
                None => r == Err::<Channel, DbError>(DbError::NotFound),
                Some(v) => r is Ok && r->Ok_0@ == v,
            },
    {
        match self.channel_index(id) {
            None => Err(DbError::NotFound),
            Some(i) => Ok(self.channels[i].copied()),
        }
    }

    /// The block with the id `id`.
    pub fn get_block(&self, id: &String) -> (r: Result<Block, DbError>)
        ensures
            match self@.block(id@) {
                None => r == Err::<Block, DbError>(DbError::NotFound),
                Some(v) => r is Ok && r->Ok_0@ == v,
            },
    {
        match self.block_index(id) {
            None => Err(DbError::NotFound),
            Some(i) => Ok(self.blocks[i].copied()),
        }
    }

    fn put_block(&mut self, i: usize, block: Block)
        requires
            i < old(self)@.blocks.len(),
        ensures
            final(self)@ == (StoreView { blocks: old(self)@.blocks.update(i as int, block@), ..old(self)@ }),
    {
        self.blocks.set(i, block);
        assert(self@.blocks =~= old(self)@.blocks.update(i as int, block@));
    }

    fn put_channel(&mut self, i: usize, channel: Channel)
        requires
            i < old(self)@.channels.len(),
        ensures
            final(self)@ == (StoreView {
                channels: old(self)@.channels.update(i as int, channel@),
                ..old(self)@
            }),
    {
        self.channels.set(i, channel);
        assert(self@.channels =~= old(self)@.channels.update(i as int, channel@));
    }

    /// Records that block `id` is connected to channel `channel_id`.
    pub fn connect_block_to_channel(&mut self, id: &String, channel_id: &String) -> (r: Result<
        (),
        DbError,
    >)
        ensures
            match old(self)@.block(id@) {
                None => r == Err::<(), DbError>(DbError::NotFound) && final(self)@ == old(self)@,
                Some(b) => r is Ok && final(self)@ == old(self)@.with_block(
                    id@,
                    BlockView { connected_channels: b.connected_channels.push(channel_id@), ..b },
                ),
            },
    {
        match self.block_index(id) {
            None => Err(DbError::NotFound),
            Some(i) => {
                let mut b = self.blocks[i].copied();
                let ghost before = b.connected_channels@;
                b.connected_channels.push(channel_id.clone());
                assert(labels_of(b.connected_channels@) =~= labels_of(before).push(channel_id@));
                self.put_block(i, b);
                Ok(())
            },
        }
    }

    /// Records that block `id` is no longer connected to channel
    /// `channel_id`. Fails where the block does not exist or was not
    /// connected to it.
    pub fn disconnect_block_from_channel(&mut self, id: &String, channel_id: &String) -> (r: Result<
        (),
        DbError,
    >)
        ensures
            match old(self)@.block(id@) {
                Some(b) if b.connected_channels.contains(channel_id@) => r is Ok && final(self)@
                    == old(self)@.with_block(
                    id@,
                    BlockView {
                        connected_channels: without(b.connected_channels, channel_id@),
                        ..b
                    },
                ),
                _ => r == Err::<(), DbError>(DbError::NotFound) && final(self)@ == old(self)@,
            },
    {
        match self.block_index(id) {
            None => Err(DbError::NotFound),
            Some(i) => {
                if !contains_label(&self.blocks[i].connected_channels, channel_id) {
                    return Err(DbError::NotFound);
                }
                let mut b = self.blocks[i].copied();
                b.connected_channels = remove_label(&self.blocks[i].connected_channels, channel_id);
                self.put_block(i, b);
                Ok(())
            },
        }
    }

    /// Pins `block_id` on channel `id`, or unpins where it is `None`.
    pub fn pin_channel_block(&mut self, id: &String, block_id: &Option<String>) -> (r: Result<
        (),
        DbError,
    >)
        ensures
            match old(self)@.channel(id@) {
                None => r == Err::<(), DbError>(DbError::NotFound) && final(self)@ == old(self)@,
                Some(c) => r is Ok && final(self)@ == old(self)@.with_channel(
                    id@,
                    ChannelView { pinned_block: opt_of(*block_id), ..c },
                ),
            },
    {
        match self.channel_index(id) {
            None => Err(DbError::NotFound),
            Some(i) => {
                let mut c = self.channels[i].copied();
                c.pinned_block = copy_opt(block_id);
                self.put_channel(i, c);
                Ok(())
            },
        }
    }

    /// Sets the description of channel `id`.
    pub fn change_channel_description(&mut self, id: &String, description: &String) -> (r: Result<
        (),
        DbError,
    >)
        ensures
            match old(self)@.channel(id@) {
                None => r == Err::<(), DbError>(DbError::NotFound) && final(self)@ == old(self)@,
                Some(c) => r is Ok && final(self)@ == old(self)@.with_channel(
                    id@,
                    ChannelView { description: description@, ..c },
                ),
            },
    {
        match self.channel_index(id) {
            None => Err(DbError::NotFound),
            Some(i) => {
                let mut c = self.channels[i].copied();
                c.description = description.clone();
                self.put_channel(i, c);
                Ok(())
            },
        }
    }

    /// Sets the labels of channel `id`.
    pub fn change_channel_labels(&mut self, id: &String, labels: &Vec<String>) -> (r: Result<
        (),
        DbError,
    >)
        ensures
            match old(self)@.channel(id@) {
                None => r == Err::<(), DbError>(DbError::NotFound) && final(self)@ == old(self)@,
                Some(c) => r is Ok && final(self)@ == old(self)@.with_channel(
                    id@,
                    ChannelView { labels: labels_of(labels@), ..c },
                ),
            },
    {
        match self.channel_index(id) {
            None => Err(DbError::NotFound),
            Some(i) => {
                let mut c = self.channels[i].copied();
                c.labels = copy_labels(labels);
                self.put_channel(i, c);
                Ok(())
            },
        }
    }

    /// Sets the content of block `id`.
    pub fn change_block(&mut self, id: &String, content: &String) -> (r: Result<(), DbError>)
        ensures
            match old(self)@.block(id@) {
                None => r == Err::<(), DbError>(DbError::NotFound) && final(self)@ == old(self)@,
                Some(b) => r is Ok && final(self)@ == old(self)@.with_block(
                    id@,
                    BlockView { content: content@, ..b },
                ),
            },
    {
        match self.block_index(id) {
            None => Err(DbError::NotFound),
            Some(i) => {
                let mut b = self.blocks[i].copied();
                b.content = content.clone();
                self.put_block(i, b);
                Ok(())
            },
        }
    }

    /// Replaces the name, extended roles and permissions of role `id`, and
    /// its editors where `editors` is given.
    pub fn change_role(
        &mut self,
        id: &String,
        name: &String,
        extends: &Vec<String>,
        editors: &Option<Vec<String>>,
        permissions: &RolePermissions,
    ) -> (r: Result<(), DbError>)
        ensures
            match find_role(old(self)@.roles, id@) {
                None => r == Err::<(), DbError>(DbError::NotFound) && final(self)@ == old(self)@,
                Some(v) => r is Ok && final(self)@ == (StoreView {
                    roles: old(self)@.roles.update(
                        first_index(role_ids(old(self)@.roles), id@),
                        RoleView {
                            name: name@,
                            extends: labels_of(extends@),
                            editors: match editors {
                                Some(e) => labels_of(e@),
                                None => v.editors,
                            },
                            permissions: permissions@,
                            ..v
                        },
                    ),
                    ..old(self)@
                }),
            },
    {
        match self.role_index(id) {
            None => Err(DbError::NotFound),
            Some(i) => {
                let mut role = self.roles[i].copied();
                role.name = name.clone();
                role.extends = copy_labels(extends);
                match editors {
                    Some(e) => {
                        role.editors = copy_labels(e);
                    },
                    None => {},
                }
                role.permissions = permissions.copied();
                self.roles.set(i, role);
                assert(self@.roles =~= old(self)@.roles.update(i as int, role@));
                Ok(())
            },
        }
    }
}

} // verus!
