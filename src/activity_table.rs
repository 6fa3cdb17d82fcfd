use vstd::prelude::*;

verus! {

/// An entry of a user's activity table.
pub enum UserActivity {
    ChannelCreated { id: String },
    BlockCreated { id: String },
    Joined,
    RoleCreated { id: String },
    ChannelBlockPinned { block_id: Option<String>, id: String },
    ChannelDescriptionChanged { id: String },
    BlockConnectedToChannel { block_id: String, id: String },
    BlockDisconnectedFromChannel { block_id: String, id: String },
}

/// An entry of a channel's activity table.
pub enum ChannelActivity {
    Created,
    BlockConnected { by: String, id: String },
    BlockDisconnected { by: String, id: String },
    BlockPinned { by: String, id: Option<String> },
    DescriptionChanged { by: String },
    LabelsChanged { by: String },
    RolesChanged { by: String },
}

/// An entry of the global activity table.
pub enum GlobalActivity {
    ChannelCreated { by: String, id: String },
    BlockCreated { by: String, id: String },
    Joined { by: String },
    ChannelBlockPinned { by: String, id: Option<String>, channel_id: String },
    ChannelDescriptionChanged { by: String, id: String },
    BlockChanged { by: String, id: String },
}

/// An entry of an activity table, of whichever kind of table.
pub enum Activity {
    User { activity: UserActivity },
    Channel { activity: ChannelActivity },
    Global { activity: GlobalActivity },
}

/// An audit log: its id and its entries, oldest first.
pub struct ActivityTable {
    pub id: String,
    pub items: Vec<Activity>,
}

} // verus!
