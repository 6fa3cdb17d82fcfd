use vstd::prelude::*;
use crate::store::copy_opt;
use crate::activity_table::{Activity as TableActivity, ChannelActivity, UserActivity};

verus! {

/// Whose activity table an entry goes to.
pub enum ActivityTablesOf {
    User { name: String },
    Channel { id: String },
}

/// Something a user did that the audit log records.
pub enum Activity {
    BlockConnectedToChannel { block_id: String, id: String, by: String },
    BlockDisconnectedFromChannel { block_id: String, id: String, by: String },
    BlockPinnedOnChannel { block_id: Option<String>, id: String, by: String },
    ChannelDescriptionChanged { id: String, by: String },
    Joined { by: String },
    RoleCreated { by: String, id: String },
    ChannelLabelsChanged { id: String, by: String },
    BlockCreated { id: String, by: String },
}

/// The entries that `a` adds, table by table: for a change to a channel's
/// blocks, one to the acting user's table and one to the channel's table;
/// for the other activities, none.
pub open spec fn entries_of(a: Activity) -> Seq<(ActivityTablesOf, Seq<TableActivity>)> {
    match a {
        Activity::BlockConnectedToChannel { block_id, id, by } => seq![
            (
                ActivityTablesOf::User { name: by },
                seq![TableActivity::User { activity: UserActivity::BlockConnectedToChannel { id, block_id } }],
            ),
            (
                ActivityTablesOf::Channel { id },
                seq![TableActivity::Channel { activity: ChannelActivity::BlockConnected { id: block_id, by } }],
            ),
        ],
        Activity::BlockDisconnectedFromChannel { block_id, id, by } => seq![
            (
                ActivityTablesOf::User { name: by },
                seq![TableActivity::User { activity: UserActivity::BlockDisconnectedFromChannel { id, block_id } }],
            ),
            (
                ActivityTablesOf::Channel { id },
                seq![TableActivity::Channel { activity: ChannelActivity::BlockDisconnected { id: block_id, by } }],
            ),
        ],
        Activity::BlockPinnedOnChannel { block_id, id, by } => seq![
            (
                ActivityTablesOf::User { name: by },
                seq![TableActivity::User { activity: UserActivity::ChannelBlockPinned { id, block_id } }],
            ),
            (
                ActivityTablesOf::Channel { id },
                seq![TableActivity::Channel { activity: ChannelActivity::BlockPinned { id: block_id, by } }],
            ),
        ],
        _ => Seq::empty(),
    }
}

/// The entries of a table-by-table list, as sequences.
pub open spec fn entries_view(v: Seq<(ActivityTablesOf, Vec<TableActivity>)>) -> Seq<
    (ActivityTablesOf, Seq<TableActivity>),
> {
    v.map_values(|e: (ActivityTablesOf, Vec<TableActivity>)| (e.0, e.1@))
}

impl Activity {
    /// Splits this activity into the entries it adds to each activity table.
    pub fn process_into(self) -> (r: Vec<(ActivityTablesOf, Vec<TableActivity>)>)
        ensures
            entries_view(r@) == entries_of(self),
    {
        match self {
            Activity::BlockConnectedToChannel { block_id, id, by } => {
                let user_entries = vec![TableActivity::User { activity: UserActivity::BlockConnectedToChannel { id: id.clone(), block_id: block_id.clone() } }];
                let channel_entries = vec![TableActivity::Channel { activity: ChannelActivity::BlockConnected { id: block_id, by: by.clone() } }];
                let ghost ue = user_entries@;
                let ghost ce = channel_entries@;
                let r = vec![(ActivityTablesOf::User { name: by }, user_entries), (ActivityTablesOf::Channel { id }, channel_entries)];
                assert(ue =~= seq![ue[0]]);
                assert(ce =~= seq![ce[0]]);
                assert(entries_view(r@) =~= seq![(r@[0].0, ue), (r@[1].0, ce)]);
                assert(entries_view(r@) =~= entries_of(self));
                r
            },
            Activity::BlockDisconnectedFromChannel { block_id, id, by } => {
                let user_entries = vec![TableActivity::User { activity: UserActivity::BlockDisconnectedFromChannel { id: id.clone(), block_id: block_id.clone() } }];
                let channel_entries = vec![TableActivity::Channel { activity: ChannelActivity::BlockDisconnected { id: block_id, by: by.clone() } }];
                let ghost ue = user_entries@;
                let ghost ce = channel_entries@;
                let r = vec![(ActivityTablesOf::User { name: by }, user_entries), (ActivityTablesOf::Channel { id }, channel_entries)];
                assert(ue =~= seq![ue[0]]);
                assert(ce =~= seq![ce[0]]);
                assert(entries_view(r@) =~= seq![(r@[0].0, ue), (r@[1].0, ce)]);
                assert(entries_view(r@) =~= entries_of(self));
                r
            },
            Activity::BlockPinnedOnChannel { block_id, id, by } => {
                let user_entries = vec![TableActivity::User { activity: UserActivity::ChannelBlockPinned { id: id.clone(), block_id: copy_opt(&block_id) } }];
                let channel_entries = vec![TableActivity::Channel { activity: ChannelActivity::BlockPinned { id: block_id, by: by.clone() } }];
                let ghost ue = user_entries@;
                let ghost ce = channel_entries@;
                let r = vec![(ActivityTablesOf::User { name: by }, user_entries), (ActivityTablesOf::Channel { id }, channel_entries)];
                assert(ue =~= seq![ue[0]]);
                assert(ce =~= seq![ce[0]]);
                assert(entries_view(r@) =~= seq![(r@[0].0, ue), (r@[1].0, ce)]);
                assert(entries_view(r@) =~= entries_of(self));
                r
            },
            _ => {
                let r: Vec<(ActivityTablesOf, Vec<TableActivity>)> = Vec::new();
                assert(entries_view(r@) =~= entries_of(self));
                r
            },
        }
    }
}

} // verus!
