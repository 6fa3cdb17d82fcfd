use vstd::prelude::*;
use crate::activity::Activity;
use crate::auth::{Auth, AuthInfo};
use crate::errors::{CreateRoleError, DbError, Error, RoleWrappedError};
use crate::live::LiveMessage;
use crate::lookup::first_index;
use crate::permissions::{contains_label, copy_labels, labels_of, RolePermissions};
use crate::resolver::{resolve_user_role, user_role_id};
use crate::roles::{
    find_role, tree_from, inherited_flag, inherited_grants, lemma_resolved_grants, role_ids, Role, RoleView,
};
use crate::store::{copy_opt, opt_of, without, Block, BlockView, ChannelView, Store, StoreView};
use crate::validator::{intersects, RolePermissionValidator};

verus! {

/// A channel operation that the role system gates.
#[derive(PartialEq, Eq, Structural, Clone, Copy, Debug)]
pub enum Capability {
    ViewBlocks,
    ConnectBlocks,
    DisconnectBlocks,
    PinBlock,
    ChangeDescription,
    SetLabels,
    Live,
}

/// The permission list that gates a capability, by its number in
/// `PermissionsView::list`; none for `SetLabels`, which the flag decides.
pub open spec fn gate_list(cap: Capability) -> Option<int> {
    match cap {
        Capability::ViewBlocks => Some(1),
        Capability::ConnectBlocks => Some(2),
        Capability::DisconnectBlocks => Some(3),
        Capability::PinBlock => Some(4),
        Capability::ChangeDescription => Some(6),
        Capability::Live => Some(8),
        Capability::SetLabels => None,
    }
}

/// Whether `user` may use `cap` on channel `c`: the channel's labels meet
/// the labels that the user's role grants for it, inheritance applied;
/// setting labels goes by the role's flag alone.
pub open spec fn allowed(roles: Seq<RoleView>, c: ChannelView, user: Seq<char>, cap: Capability) -> bool {
    let rid = user_role_id(c, user);
    match gate_list(cap) {
        None => inherited_flag(roles, rid),
        Some(k) => exists|i: int|
            0 <= i < c.labels.len() && #[trigger] inherited_grants(roles, rid, k).contains(c.labels[i]),
    }
}

/// A change to a channel's blocks or settings, each gated by one capability.
pub enum ChannelChange {
    ConnectBlock { block_id: String },
    DisconnectBlock { block_id: String },
    PinBlock { block_id: Option<String> },
    Description,
    Labels,
}

impl ChannelChange {
    /// The capability that the change needs.
    pub open spec fn capability_of(self) -> Capability {
        match self {
            ChannelChange::ConnectBlock { .. } => Capability::ConnectBlocks,
            ChannelChange::DisconnectBlock { .. } => Capability::DisconnectBlocks,
            ChannelChange::PinBlock { .. } => Capability::PinBlock,
            ChannelChange::Description => Capability::ChangeDescription,
            ChannelChange::Labels => Capability::SetLabels,
        }
    }

    /// The live message and the audit record that the change of channel
    /// `id`, made by `by`, emits once the store has it.
    pub open spec fn effects_of(self, id: String, by: String) -> (LiveMessage, Activity) {
        match self {
            ChannelChange::ConnectBlock { block_id } => (
                LiveMessage::BlockConnected { id: block_id },
                Activity::BlockConnectedToChannel { block_id, id, by },
            ),
            ChannelChange::DisconnectBlock { block_id } => (
                LiveMessage::BlockDisconnected { id: block_id },
                Activity::BlockDisconnectedFromChannel { block_id, id, by },
            ),
            ChannelChange::PinBlock { block_id } => (
                LiveMessage::BlockPinned { id: block_id },
                Activity::BlockPinnedOnChannel { block_id, id, by },
            ),
            ChannelChange::Description => (
                LiveMessage::DescriptionChanged,
                Activity::ChannelDescriptionChanged { id, by },
            ),
            ChannelChange::Labels => (LiveMessage::LabelsChanged, Activity::ChannelLabelsChanged { id, by }),
        }
    }

    pub fn capability(&self) -> (r: Capability)
        ensures
            r == self.capability_of(),
    {
        match self {
            ChannelChange::ConnectBlock { .. } => Capability::ConnectBlocks,
            ChannelChange::DisconnectBlock { .. } => Capability::DisconnectBlocks,
            ChannelChange::PinBlock { .. } => Capability::PinBlock,
            ChannelChange::Description => Capability::ChangeDescription,
            ChannelChange::Labels => Capability::SetLabels,
        }
    }

    /// What to publish and what to log after the store confirmed the change.
    pub fn effects(&self, id: &String, by: &String) -> (r: (LiveMessage, Activity))
        ensures
            r == self.effects_of(*id, *by),
    {
        match self {
            ChannelChange::ConnectBlock { block_id } => (
                LiveMessage::BlockConnected { id: block_id.clone() },
                Activity::BlockConnectedToChannel { block_id: block_id.clone(), id: id.clone(), by: by.clone() },
            ),
            ChannelChange::DisconnectBlock { block_id } => (
                LiveMessage::BlockDisconnected { id: block_id.clone() },
                Activity::BlockDisconnectedFromChannel {
                    block_id: block_id.clone(),
                    id: id.clone(),
                    by: by.clone(),
                },
            ),
            ChannelChange::PinBlock { block_id } => (
                LiveMessage::BlockPinned { id: copy_opt(block_id) },
                Activity::BlockPinnedOnChannel { block_id: copy_opt(block_id), id: id.clone(), by: by.clone() },
            ),
            ChannelChange::Description => (
                LiveMessage::DescriptionChanged,
                Activity::ChannelDescriptionChanged { id: id.clone(), by: by.clone() },
            ),
            ChannelChange::Labels => (
                LiveMessage::LabelsChanged,
                Activity::ChannelLabelsChanged { id: id.clone(), by: by.clone() },
            ),
        }
    }
}

/// The state of a request, fixed when it is made: who made it, if anyone.
pub struct Session {
    auth: Auth,
}

/// The reason given when a capability is missing.
pub fn refusal(cap: Capability) -> (r: String) {
    match cap {
        Capability::ViewBlocks => "you don't have permissions to view blocks".to_string(),
        Capability::ConnectBlocks => "you don't have permissions to connect blocks".to_string(),
        Capability::DisconnectBlocks => "you don't have permissions to disconnect blocks".to_string(),
        Capability::PinBlock => "you don't have permission to pin block".to_string(),
        Capability::ChangeDescription => "you don't have permissions to change channel description".to_string(),
        Capability::SetLabels => "you don't have permissions to set channel labels".to_string(),
        Capability::Live => "you don't have permissions to follow this channel live".to_string(),
    }
}

/// Whether `permissions` grant `cap` on a channel with the labels
/// `labels`: the labels meet the capability's list, or, for setting labels,
/// the flag is set.
pub fn check_capability(permissions: &RolePermissions, labels: &Vec<String>, cap: Capability) -> (r: bool)
    ensures
        gate_list(cap) is None ==> r == permissions@.set_labels,
        gate_list(cap) is Some ==> r == intersects(labels_of(labels@), permissions@.list(gate_list(cap)->0)),
{
    let validator = RolePermissionValidator::new(permissions, labels);
    match cap {
        Capability::ViewBlocks => validator.can_view_blocks(),
        Capability::ConnectBlocks => validator.can_connect_blocks(),
        Capability::DisconnectBlocks => validator.can_disconnect_blocks(),
        Capability::PinBlock => validator.can_pin_block(),
        Capability::ChangeDescription => validator.can_change_description(),
        Capability::SetLabels => validator.can_set_labels(),
        Capability::Live => validator.can_live(),
    }
}

/// The editor list that a change of `role` by `user` writes: the new list
/// where `user` owns the role, none (the list stays) where `user` is an
/// editor, and a refusal for anyone else.
pub fn editors_after_change(role: &Role, user: &String, editors: &Vec<String>) -> (r: Result<
    Option<Vec<String>>,
    Error,
>)
    ensures
        role@.owner == user@ ==> r is Ok && r->Ok_0 is Some && labels_of(r->Ok_0->0@) == labels_of(
            editors@,
        ),
        role@.owner != user@ && role@.editors.contains(user@) ==> r is Ok && r->Ok_0 is None,
        role@.owner != user@ && !role@.editors.contains(user@) ==> r is Err && r->Err_0 is Unauthorized,
{
    if role.owner == *user {
        Ok(Some(copy_labels(editors)))
    } else if contains_label(&role.editors, user) {
        Ok(None)
    } else {
        Err(Error::Unauthorized("You don't have permissions to edit this role".to_string()))
    }
}

/// Only the owner of a block may change its content.
pub fn check_block_owner(block: &Block, user: &String) -> (r: Result<(), Error>)
    ensures
        r is Ok <==> block@.owner == user@,
        r is Err ==> r->Err_0 is Unauthorized,
{
    if block.owner != *user {
        return Err(Error::Unauthorized("you don't have permissions to change this block".to_string()));
    }
    Ok(())
}

impl Session {
    /// The identity checked for this request.
    pub closed spec fn identity(&self) -> Auth {
        self.auth
    }

    pub fn new(auth: Auth) -> (r: Session)
        ensures
            r.identity() == auth,
    {
        Session { auth }
    }

    /// The identity of the caller; every mutating operation asks for it first.
    pub fn auth(&self) -> (r: Result<&AuthInfo, Error>)
        ensures
            match self.identity() {
                Auth::Valid { info } => r == Ok::<&AuthInfo, Error>(&info),
                Auth::Invalid(_) => r is Err && r->Err_0 is Unauthorized,
            },
    {
        match &self.auth {
            Auth::Valid { info } => Ok(info),
            Auth::Invalid(_) => Err(Error::Unauthorized("invalid or missing credentials".to_string())),
        }
    }

    /// Checks that the caller may use `cap` on channel `channel_id`, and
    /// returns the caller's name.
    pub fn authorize(&self, store: &Store, channel_id: &String, cap: Capability) -> (r: Result<
        String,
        RoleWrappedError,
    >)
        ensures
            self.identity() is Invalid ==> r is Err && r->Err_0 is General && r->Err_0->General_0 is Unauthorized,
            r is Ok ==> self.identity() is Valid && r->Ok_0 == self.identity()->info.name
                && store@.channel(channel_id@) is Some && allowed(
                store@.roles,
                store@.channel(channel_id@)->0,
                r->Ok_0@,
                cap,
            ),
            self.identity() is Valid && store@.channel(channel_id@) is Some && !allowed(
                store@.roles,
                store@.channel(channel_id@)->0,
                self.identity()->info.name@,
                cap,
            ) ==> r is Err,
            self.identity() is Valid && store@.channel(channel_id@) is Some && tree_from(
                store@.roles,
                user_role_id(store@.channel(channel_id@)->0, self.identity()->info.name@),
            ) && allowed(
                store@.roles,
                store@.channel(channel_id@)->0,
                self.identity()->info.name@,
                cap,
            ) ==> r is Ok,
            self.identity() is Valid && store@.channel(channel_id@) is Some && tree_from(
                store@.roles,
                user_role_id(store@.channel(channel_id@)->0, self.identity()->info.name@),
            ) && !allowed(
                store@.roles,
                store@.channel(channel_id@)->0,
                self.identity()->info.name@,
                cap,
            ) ==> r is Err && r->Err_0 is General && r->Err_0->General_0 is Unauthorized,
            r is Err && r->Err_0 is General && r->Err_0->General_0 is Unauthorized ==> (
            self.identity() is Invalid || (store@.channel(channel_id@) is Some && !allowed(
                store@.roles,
                store@.channel(channel_id@)->0,
                self.identity()->info.name@,
                cap,
            ))),
    {
        let info = match self.auth() {
            Ok(info) => info,
            Err(e) => {
                return Err(RoleWrappedError::General(e));
            },
        };
        let (role, channel) = match resolve_user_role(store, channel_id, &info.name) {
            Ok(pair) => pair,
            Err(e) => {
                return Err(e);
            },
        };
        let ghost rid = user_role_id(channel@, info.name@);
        proof {
            lemma_resolved_grants(role@.permissions, store@.roles, rid);
        }
        let granted = check_capability(&role.permissions, &channel.labels, cap);
        proof {
            let c = channel@;
            if gate_list(cap) is Some {
                let k = gate_list(cap)->0;
                let p = role@.permissions;
                assert(p.list(k).to_set() == inherited_grants(store@.roles, rid, k));
                if granted {
                    let i = choose|i: int| 0 <= i < c.labels.len() && p.list(k).contains(#[trigger] c.labels[i]);
                    assert(p.list(k).to_set().contains(c.labels[i]));
                    assert(inherited_grants(store@.roles, rid, k).contains(c.labels[i]));
                } else {
                    assert forall|i: int| 0 <= i < c.labels.len() implies !#[trigger] inherited_grants(
                        store@.roles,
                        rid,
                        k,
                    ).contains(c.labels[i]) by {
                        if inherited_grants(store@.roles, rid, k).contains(c.labels[i]) {
                            assert(p.list(k).to_set().contains(c.labels[i]));
                            assert(p.list(k).contains(c.labels[i]));
                        }
                    }
                }
            }
        }
        if granted {
            Ok(info.name.clone())
        } else {
            Err(RoleWrappedError::General(Error::Unauthorized(refusal(cap))))
        }
    }

    /// Connects block `block_id` to channel `id`, for a caller whose role may connect blocks there.
    pub fn connect_block_to_channel(
        &self,
        store: &mut Store,
        outbox: &mut Vec<(String, LiveMessage)>,
        activities: &mut Vec<Activity>,
        id: &String,
        block_id: &String,
    ) -> (r: Result<(), RoleWrappedError>)
        ensures
            r is Err ==> final(store)@ == old(store)@ && final(outbox)@ == old(outbox)@
                && final(activities)@ == old(activities)@,
            self.identity() is Invalid ==> r is Err && r->Err_0 is General && r->Err_0->General_0 is Unauthorized,
            self.identity() is Valid && old(store)@.channel(id@) is Some && !allowed(
                old(store)@.roles,
                old(store)@.channel(id@)->0,
                self.identity()->info.name@,
                Capability::ConnectBlocks,
            ) ==> r is Err,
            r is Err && r->Err_0 is General && r->Err_0->General_0 is Unauthorized ==> (
            self.identity() is Invalid || (old(store)@.channel(id@) is Some && !allowed(
                old(store)@.roles,
                old(store)@.channel(id@)->0,
                self.identity()->info.name@,
                Capability::ConnectBlocks,
            ))),
            r is Ok ==> self.identity() is Valid && old(store)@.channel(id@) is Some && allowed(
                old(store)@.roles,
                old(store)@.channel(id@)->0,
                self.identity()->info.name@,
                Capability::ConnectBlocks,
            ),
            self.identity() is Valid && old(store)@.channel(id@) is Some && tree_from(
                old(store)@.roles,
                user_role_id(old(store)@.channel(id@)->0, self.identity()->info.name@),
            ) && allowed(
                old(store)@.roles,
                old(store)@.channel(id@)->0,
                self.identity()->info.name@,
                Capability::ConnectBlocks,
            ) && old(store)@.block(block_id@) is Some ==> r is Ok,
            self.identity() is Valid && old(store)@.channel(id@) is Some && tree_from(
                old(store)@.roles,
                user_role_id(old(store)@.channel(id@)->0, self.identity()->info.name@),
            ) && !allowed(
                old(store)@.roles,
                old(store)@.channel(id@)->0,
                self.identity()->info.name@,
                Capability::ConnectBlocks,
            ) ==> r is Err && r->Err_0 is General && r->Err_0->General_0 is Unauthorized,
            self.identity() is Valid && old(store)@.channel(id@) is Some && tree_from(
                old(store)@.roles,
                user_role_id(old(store)@.channel(id@)->0, self.identity()->info.name@),
            ) && allowed(
                old(store)@.roles,
                old(store)@.channel(id@)->0,
                self.identity()->info.name@,
                Capability::ConnectBlocks,
            ) && !(old(store)@.block(block_id@) is Some) ==> r == Err::<(), RoleWrappedError>(
                RoleWrappedError::General(Error::Db(DbError::NotFound)),
            ),
            r is Ok ==> old(store)@.block(block_id@) is Some && final(store)@ == old(store)@.with_block(
                block_id@,
                BlockView {
                    connected_channels: old(store)@.block(block_id@)->0.connected_channels.push(id@),
                    ..old(store)@.block(block_id@)->0
                },
            ),
            r is Ok ==> final(outbox)@ == old(outbox)@.push((*id, LiveMessage::BlockConnected { id: *block_id })),
            r is Ok ==> final(activities)@ == old(activities)@.push(Activity::BlockConnectedToChannel { block_id: *block_id, id: *id, by: self.identity()->info.name }),
    {
        let by = match self.authorize(store, id, Capability::ConnectBlocks) {
            Ok(by) => by,
            Err(e) => {
                return Err(e);
            },
        };
        match store.connect_block_to_channel(block_id, id) {
            Ok(()) => {},
            Err(e) => {
                return Err(RoleWrappedError::General(Error::Db(e)));
            },
        }
        let (message, activity) = (ChannelChange::ConnectBlock { block_id: block_id.clone() }).effects(id, &by);
        outbox.push((id.clone(), message));
        activities.push(activity);
        Ok(())
    }

    /// Disconnects block `block_id` from channel `id`, for a caller whose role may disconnect blocks there.
    pub fn disconnect_block_from_channel(
        &self,
        store: &mut Store,
        outbox: &mut Vec<(String, LiveMessage)>,
        activities: &mut Vec<Activity>,
        id: &String,
        block_id: &String,
    ) -> (r: Result<(), RoleWrappedError>)
        ensures
            r is Err ==> final(store)@ == old(store)@ && final(outbox)@ == old(outbox)@
                && final(activities)@ == old(activities)@,
            self.identity() is Invalid ==> r is Err && r->Err_0 is General && r->Err_0->General_0 is Unauthorized,
            self.identity() is Valid && old(store)@.channel(id@) is Some && !allowed(
                old(store)@.roles,
                old(store)@.channel(id@)->0,
                self.identity()->info.name@,
                Capability::DisconnectBlocks,
            ) ==> r is Err,
            r is Err && r->Err_0 is General && r->Err_0->General_0 is Unauthorized ==> (
            self.identity() is Invalid || (old(store)@.channel(id@) is Some && !allowed(
                old(store)@.roles,
                old(store)@.channel(id@)->0,
                self.identity()->info.name@,
                Capability::DisconnectBlocks,
            ))),
            r is Ok ==> self.identity() is Valid && old(store)@.channel(id@) is Some && allowed(
                old(store)@.roles,
                old(store)@.channel(id@)->0,
                self.identity()->info.name@,
                Capability::DisconnectBlocks,
            ),
            self.identity() is Valid && old(store)@.channel(id@) is Some && tree_from(
                old(store)@.roles,
                user_role_id(old(store)@.channel(id@)->0, self.identity()->info.name@),
            ) && allowed(
                old(store)@.roles,
                old(store)@.channel(id@)->0,
                self.identity()->info.name@,
                Capability::DisconnectBlocks,
            ) && old(store)@.block(block_id@) is Some && old(store)@.block(block_id@)->0.connected_channels.contains(id@) ==> r is Ok,
            self.identity() is Valid && old(store)@.channel(id@) is Some && tree_from(
                old(store)@.roles,
                user_role_id(old(store)@.channel(id@)->0, self.identity()->info.name@),
            ) && !allowed(
                old(store)@.roles,
                old(store)@.channel(id@)->0,
                self.identity()->info.name@,
                Capability::DisconnectBlocks,
            ) ==> r is Err && r->Err_0 is General && r->Err_0->General_0 is Unauthorized,
            self.identity() is Valid && old(store)@.channel(id@) is Some && tree_from(
                old(store)@.roles,
                user_role_id(old(store)@.channel(id@)->0, self.identity()->info.name@),
            ) && allowed(
                old(store)@.roles,
                old(store)@.channel(id@)->0,
                self.identity()->info.name@,
                Capability::DisconnectBlocks,
            ) && !(old(store)@.block(block_id@) is Some && old(store)@.block(block_id@)->0.connected_channels.contains(id@)) ==> r == Err::<(), RoleWrappedError>(
                RoleWrappedError::General(Error::Db(DbError::NotFound)),
            ),
            r is Ok ==> old(store)@.block(block_id@) is Some && old(store)@.block(block_id@)->0.connected_channels.contains(id@)
                && final(store)@ == old(store)@.with_block(
                block_id@,
                BlockView {
                    connected_channels: without(old(store)@.block(block_id@)->0.connected_channels, id@),
                    ..old(store)@.block(block_id@)->0
                },
            ),
            r is Ok ==> final(outbox)@ == old(outbox)@.push((*id, LiveMessage::BlockDisconnected { id: *block_id })),
            r is Ok ==> final(activities)@ == old(activities)@.push(Activity::BlockDisconnectedFromChannel { block_id: *block_id, id: *id, by: self.identity()->info.name }),
    {
        let by = match self.authorize(store, id, Capability::DisconnectBlocks) {
            Ok(by) => by,
            Err(e) => {
                return Err(e);
            },
        };
        match store.disconnect_block_from_channel(block_id, id) {
            Ok(()) => {},
            Err(e) => {
                return Err(RoleWrappedError::General(Error::Db(e)));
            },
        }
        let (message, activity) = (ChannelChange::DisconnectBlock { block_id: block_id.clone() }).effects(id, &by);
        outbox.push((id.clone(), message));
        activities.push(activity);
        Ok(())
    }

    /// Pins block `block_id` on channel `id` (unpins on `None`), for a caller whose role may pin blocks there.
    pub fn pin_channel_block(
        &self,
        store: &mut Store,
        outbox: &mut Vec<(String, LiveMessage)>,
        activities: &mut Vec<Activity>,
        id: &String,
        block_id: &Option<String>,
    ) -> (r: Result<(), RoleWrappedError>)
        ensures
            r is Err ==> final(store)@ == old(store)@ && final(outbox)@ == old(outbox)@
                && final(activities)@ == old(activities)@,
            self.identity() is Invalid ==> r is Err && r->Err_0 is General && r->Err_0->General_0 is Unauthorized,
            self.identity() is Valid && old(store)@.channel(id@) is Some && !allowed(
                old(store)@.roles,
                old(store)@.channel(id@)->0,
                self.identity()->info.name@,
                Capability::PinBlock,
            ) ==> r is Err,
            r is Err && r->Err_0 is General && r->Err_0->General_0 is Unauthorized ==> (
            self.identity() is Invalid || (old(store)@.channel(id@) is Some && !allowed(
                old(store)@.roles,
                old(store)@.channel(id@)->0,
                self.identity()->info.name@,
                Capability::PinBlock,
            ))),
            r is Ok ==> self.identity() is Valid && old(store)@.channel(id@) is Some && allowed(
                old(store)@.roles,
                old(store)@.channel(id@)->0,
                self.identity()->info.name@,
                Capability::PinBlock,
            ),
            self.identity() is Valid && old(store)@.channel(id@) is Some && tree_from(
                old(store)@.roles,
                user_role_id(old(store)@.channel(id@)->0, self.identity()->info.name@),
            ) && allowed(
                old(store)@.roles,
                old(store)@.channel(id@)->0,
                self.identity()->info.name@,
                Capability::PinBlock,
            ) ==> r is Ok,
            self.identity() is Valid && old(store)@.channel(id@) is Some && tree_from(
                old(store)@.roles,
                user_role_id(old(store)@.channel(id@)->0, self.identity()->info.name@),
            ) && !allowed(
                old(store)@.roles,
                old(store)@.channel(id@)->0,
                self.identity()->info.name@,
                Capability::PinBlock,
            ) ==> r is Err && r->Err_0 is General && r->Err_0->General_0 is Unauthorized,
            r is Ok ==> final(store)@ == old(store)@.with_channel(
                id@,
                ChannelView { pinned_block: opt_of(*block_id), ..old(store)@.channel(id@)->0 },
            ),
            r is Ok ==> final(outbox)@ == old(outbox)@.push((*id, LiveMessage::BlockPinned { id: *block_id })),
            r is Ok ==> final(activities)@ == old(activities)@.push(Activity::BlockPinnedOnChannel { block_id: *block_id, id: *id, by: self.identity()->info.name }),
    {
        let by = match self.authorize(store, id, Capability::PinBlock) {
            Ok(by) => by,
            Err(e) => {
                return Err(e);
            },
        };
        match store.pin_channel_block(id, block_id) {
            Ok(()) => {},
            Err(e) => {
                return Err(RoleWrappedError::General(Error::Db(e)));
            },
        }
        let (message, activity) = (ChannelChange::PinBlock { block_id: copy_opt(block_id) }).effects(id, &by);
        outbox.push((id.clone(), message));
        activities.push(activity);
        Ok(())
    }

    /// Sets the description of channel `id`, for a caller whose role may change it.
    pub fn change_channel_description(
        &self,
        store: &mut Store,
        outbox: &mut Vec<(String, LiveMessage)>,
        activities: &mut Vec<Activity>,
        id: &String,
        description: &String,
    ) -> (r: Result<(), RoleWrappedError>)
        ensures
            r is Err ==> final(store)@ == old(store)@ && final(outbox)@ == old(outbox)@
                && final(activities)@ == old(activities)@,
            self.identity() is Invalid ==> r is Err && r->Err_0 is General && r->Err_0->General_0 is Unauthorized,
            self.identity() is Valid && old(store)@.channel(id@) is Some && !allowed(
                old(store)@.roles,
                old(store)@.channel(id@)->0,
                self.identity()->info.name@,
                Capability::ChangeDescription,
            ) ==> r is Err,
            r is Err && r->Err_0 is General && r->Err_0->General_0 is Unauthorized ==> (
            self.identity() is Invalid || (old(store)@.channel(id@) is Some && !allowed(
                old(store)@.roles,
                old(store)@.channel(id@)->0,
                self.identity()->info.name@,
                Capability::ChangeDescription,
            ))),
            r is Ok ==> self.identity() is Valid && old(store)@.channel(id@) is Some && allowed(
                old(store)@.roles,
                old(store)@.channel(id@)->0,
                self.identity()->info.name@,
                Capability::ChangeDescription,
            ),
            self.identity() is Valid && old(store)@.channel(id@) is Some && tree_from(
                old(store)@.roles,
                user_role_id(old(store)@.channel(id@)->0, self.identity()->info.name@),
            ) && allowed(
                old(store)@.roles,
                old(store)@.channel(id@)->0,
                self.identity()->info.name@,
                Capability::ChangeDescription,
            ) ==> r is Ok,
            self.identity() is Valid && old(store)@.channel(id@) is Some && tree_from(
                old(store)@.roles,
                user_role_id(old(store)@.channel(id@)->0, self.identity()->info.name@),
            ) && !allowed(
                old(store)@.roles,
                old(store)@.channel(id@)->0,
                self.identity()->info.name@,
                Capability::ChangeDescription,
            ) ==> r is Err && r->Err_0 is General && r->Err_0->General_0 is Unauthorized,
            r is Ok ==> final(store)@ == old(store)@.with_channel(
                id@,
                ChannelView { description: description@, ..old(store)@.channel(id@)->0 },
            ),
            r is Ok ==> final(outbox)@ == old(outbox)@.push((*id, LiveMessage::DescriptionChanged)),
            r is Ok ==> final(activities)@ == old(activities)@.push(Activity::ChannelDescriptionChanged { id: *id, by: self.identity()->info.name }),
    {
        let by = match self.authorize(store, id, Capability::ChangeDescription) {
            Ok(by) => by,
            Err(e) => {
                return Err(e);
            },
        };
        match store.change_channel_description(id, description) {
            Ok(()) => {},
            Err(e) => {
                return Err(RoleWrappedError::General(Error::Db(e)));
            },
        }
        let (message, activity) = (ChannelChange::Description).effects(id, &by);
        outbox.push((id.clone(), message));
        activities.push(activity);
        Ok(())
    }

    /// Sets the labels of channel `id`, for a caller whose role may set labels.
    pub fn change_channel_labels(
        &self,
        store: &mut Store,
        outbox: &mut Vec<(String, LiveMessage)>,
        activities: &mut Vec<Activity>,
        id: &String,
        labels: &Vec<String>,
    ) -> (r: Result<(), RoleWrappedError>)
        ensures
            r is Err ==> final(store)@ == old(store)@ && final(outbox)@ == old(outbox)@
                && final(activities)@ == old(activities)@,
            self.identity() is Invalid ==> r is Err && r->Err_0 is General && r->Err_0->General_0 is Unauthorized,
            self.identity() is Valid && old(store)@.channel(id@) is Some && !allowed(
                old(store)@.roles,
                old(store)@.channel(id@)->0,
                self.identity()->info.name@,
                Capability::SetLabels,
            ) ==> r is Err,
            r is Err && r->Err_0 is General && r->Err_0->General_0 is Unauthorized ==> (
            self.identity() is Invalid || (old(store)@.channel(id@) is Some && !allowed(
                old(store)@.roles,
                old(store)@.channel(id@)->0,
                self.identity()->info.name@,
                Capability::SetLabels,
            ))),
            r is Ok ==> self.identity() is Valid && old(store)@.channel(id@) is Some && allowed(
                old(store)@.roles,
                old(store)@.channel(id@)->0,
                self.identity()->info.name@,
                Capability::SetLabels,
            ),
            self.identity() is Valid && old(store)@.channel(id@) is Some && tree_from(
                old(store)@.roles,
                user_role_id(old(store)@.channel(id@)->0, self.identity()->info.name@),
            ) && allowed(
                old(store)@.roles,
                old(store)@.channel(id@)->0,
                self.identity()->info.name@,
                Capability::SetLabels,
            ) ==> r is Ok,
            self.identity() is Valid && old(store)@.channel(id@) is Some && tree_from(
                old(store)@.roles,
                user_role_id(old(store)@.channel(id@)->0, self.identity()->info.name@),
            ) && !allowed(
                old(store)@.roles,
                old(store)@.channel(id@)->0,
                self.identity()->info.name@,
                Capability::SetLabels,
            ) ==> r is Err && r->Err_0 is General && r->Err_0->General_0 is Unauthorized,
            r is Ok ==> final(store)@ == old(store)@.with_channel(
                id@,
                ChannelView { labels: labels_of(labels@), ..old(store)@.channel(id@)->0 },
            ),
            r is Ok ==> final(outbox)@ == old(outbox)@.push((*id, LiveMessage::LabelsChanged)),
            r is Ok ==> final(activities)@ == old(activities)@.push(Activity::ChannelLabelsChanged { id: *id, by: self.identity()->info.name }),
    {
        let by = match self.authorize(store, id, Capability::SetLabels) {
            Ok(by) => by,
            Err(e) => {
                return Err(e);
            },
        };
        match store.change_channel_labels(id, labels) {
            Ok(()) => {},
            Err(e) => {
                return Err(RoleWrappedError::General(Error::Db(e)));
            },
        }
        let (message, activity) = (ChannelChange::Labels).effects(id, &by);
        outbox.push((id.clone(), message));
        activities.push(activity);
        Ok(())
    }

    /// Sets the content of block `id`; only its owner may. Every channel the
    /// block is connected to is told, in the order of its connections.
    pub fn change_block(
        &self,
        store: &mut Store,
        outbox: &mut Vec<(String, LiveMessage)>,
        id: &String,
        content: &String,
    ) -> (r: Result<(), Error>)
        ensures
            r is Err ==> final(store)@ == old(store)@ && final(outbox)@ == old(outbox)@,
            self.identity() is Invalid ==> r is Err && r->Err_0 is Unauthorized,
            self.identity() is Valid && old(store)@.block(id@) is None ==> r == Err::<(), Error>(
                Error::Db(DbError::NotFound),
            ),
            self.identity() is Valid && old(store)@.block(id@) is Some ==> (r is Ok <==> old(
                store,
            )@.block(id@)->0.owner == self.identity()->info.name@),
            r is Err && r->Err_0 is Unauthorized ==> self.identity() is Invalid || old(store)@.block(
                id@,
            )->0.owner != self.identity()->info.name@,
            self.identity() is Valid && old(store)@.block(id@) is Some && old(store)@.block(id@)->0.owner
                != self.identity()->info.name@ ==> r is Err && r->Err_0 is Unauthorized,
            r is Ok ==> ({
                let b = old(store)@.block(id@)->0;
                &&& final(store)@ == old(store)@.with_block(id@, BlockView { content: content@, ..b })
                &&& final(outbox)@.len() == old(outbox)@.len() + b.connected_channels.len()
                &&& final(outbox)@.take(old(outbox)@.len() as int) == old(outbox)@
                &&& forall|i: int|
                    0 <= i < b.connected_channels.len() ==> (#[trigger] final(outbox)@[old(
                        outbox,
                    )@.len() + i]).0@ == b.connected_channels[i] && final(outbox)@[old(
                        outbox,
                    )@.len() + i].1 == (LiveMessage::BlockChanged { id: *id })
            }),
    {
        let info = match self.auth() {
            Ok(info) => info,
            Err(e) => {
                return Err(e);
            },
        };
        let block = match store.get_block(id) {
            Ok(b) => b,
            Err(e) => {
                return Err(Error::Db(e));
            },
        };
        match check_block_owner(&block, &info.name) {
            Ok(()) => {},
            Err(e) => {
                return Err(e);
            },
        }
        match store.change_block(id, content) {
            Ok(()) => {},
            Err(e) => {
                return Err(Error::Db(e));
            },
        }
        let ghost start = outbox@;
        let mut i: usize = 0;
        while i < block.connected_channels.len()
            invariant
                0 <= i <= block.connected_channels.len(),
                outbox@.len() == start.len() + i,
                outbox@.take(start.len() as int) == start,
                forall|j: int|
                    0 <= j < i ==> (#[trigger] outbox@[start.len() + j]).0@ == block@.connected_channels[j]
                        && outbox@[start.len() + j].1 == (LiveMessage::BlockChanged { id: *id }),
            decreases block.connected_channels.len() - i,
        {
            let ghost before = outbox@;
            outbox.push((block.connected_channels[i].clone(), LiveMessage::BlockChanged { id: id.clone() }));
            assert(outbox@.take(start.len() as int) =~= before.take(start.len() as int));
            assert(outbox@[start.len() + i as int].0@ == block@.connected_channels[i as int]);
            i += 1;
        }
        Ok(())
    }

    /// Changes role `id`. Its owner may change everything; an editor may
    /// change all but the list of editors, which stays as it was.
    pub fn change_role(
        &self,
        store: &mut Store,
        id: &String,
        name: &String,
        extends: &Vec<String>,
        editors: &Vec<String>,
        permissions: &RolePermissions,
    ) -> (r: Result<(), Error>)
        ensures
            r is Err ==> final(store)@ == old(store)@,
            self.identity() is Invalid ==> r is Err && r->Err_0 is Unauthorized,
            self.identity() is Valid && find_role(old(store)@.roles, id@) is None ==> r == Err::<
                (),
                Error,
            >(Error::Db(DbError::NotFound)),
            self.identity() is Valid && find_role(old(store)@.roles, id@) is Some ==> ({
                let v = find_role(old(store)@.roles, id@)->0;
                let user = self.identity()->info.name@;
                &&& r is Ok <==> (v.owner == user || v.editors.contains(user))
                &&& !(v.owner == user || v.editors.contains(user)) ==> r is Err && r->Err_0 is Unauthorized
                &&& r is Ok ==> final(store)@ == (StoreView {
                    roles: old(store)@.roles.update(
                        first_index(role_ids(old(store)@.roles), id@),
                        RoleView {
                            name: name@,
                            extends: labels_of(extends@),
                            editors: if v.owner == user {
                                labels_of(editors@)
                            } else {
                                v.editors
                            },
                            permissions: permissions@,
                            ..v
                        },
                    ),
                    ..old(store)@
                })
            }),
    {
        let info = match self.auth() {
            Ok(info) => info,
            Err(e) => {
                return Err(e);
            },
        };
        let role = match store.get_role(id) {
            Ok(role) => role,
            Err(e) => {
                return Err(Error::Db(e));
            },
        };
        let new_editors = match editors_after_change(&role, &info.name, editors) {
            Ok(e) => e,
            Err(e) => {
                return Err(e);
            },
        };
        match store.change_role(id, name, extends, &new_editors, permissions) {
            Ok(()) => Ok(()),
            Err(e) => Err(Error::Db(e)),
        }
    }

    /// Creates role `id`, owned by the caller. Every role it extends must
    /// exist already: that rules out a role that extends itself.
    pub fn create_role(
        &self,
        store: &mut Store,
        id: &String,
        name: &String,
        extends: &Vec<String>,
        editors: &Vec<String>,
        permissions: &RolePermissions,
    ) -> (r: Result<(), CreateRoleError>)
        ensures
            r is Err ==> final(store)@ == old(store)@,
            self.identity() is Invalid ==> r is Err && r->Err_0 is General && r->Err_0->General_0 is Unauthorized,
            self.identity() is Valid ==> (r is Ok <==> forall|i: int|
                0 <= i < extends@.len() ==> find_role(old(store)@.roles, #[trigger] extends@[i]@) is Some),
            r is Err && r->Err_0 is RoleDoesNotExist ==> exists|i: int|
                0 <= i < extends@.len() && find_role(old(store)@.roles, #[trigger] extends@[i]@) is None
                    && r->Err_0->RoleDoesNotExist_0 == extends@[i]
                    && r->Err_0->RoleDoesNotExist_1 == DbError::NotFound,
            r is Ok ==> final(store)@ == (StoreView {
                roles: old(store)@.roles.push(
                    RoleView {
                        id: id@,
                        owner: self.identity()->info.name@,
                        editors: labels_of(editors@),
                        name: name@,
                        extends: labels_of(extends@),
                        permissions: permissions@,
                    },
                ),
                ..old(store)@
            }),
    {
        let info = match self.auth() {
            Ok(info) => info,
            Err(e) => {
                return Err(CreateRoleError::General(e));
            },
        };
        let mut i: usize = 0;
        while i < extends.len()
            invariant
                0 <= i <= extends.len(),
                self.identity() is Valid,
                forall|j: int| 0 <= j < i ==> find_role(store@.roles, #[trigger] extends@[j]@) is Some,
            decreases extends.len() - i,
        {
            match store.get_role(&extends[i]) {
                Ok(_) => {},
                Err(e) => {
                    return Err(CreateRoleError::RoleDoesNotExist(extends[i].clone(), e));
                },
            }
            i += 1;
        }
        let role = Role {
            id: id.clone(),
            owner: info.name.clone(),
            editors: copy_labels(editors),
            name: name.clone(),
            extends: copy_labels(extends),
            permissions: permissions.copied(),
        };
        store.insert_role(role);
        Ok(())
    }
}

} // verus!
