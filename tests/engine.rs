use std::cell::RefCell;
use std::rc::Rc;

use collab::account::{check_password, User, LoginError, check_uniqueness, query_limit, validate_registration, CredentialUniqueness, RegisterError};
use collab::activity::{Activity, ActivityTablesOf};
use collab::activity_table::{Activity as TableActivity, ChannelActivity, UserActivity};
use collab::auth::{AccessClaims, Auth, AuthInfo, AuthMe, AuthPublic, InvalidAuthData, InvalidAuthTokenData, KeyClaims};
use collab::errors::{DbError, Error, RoleWrappedError};
use collab::live::{DisconnectError, LiveChannel, LiveMessage, Peer};
use collab::permissions::{append_vec_unique, RolePermissions};
use collab::resolver::{resolve_role, resolve_user_role, role_id_for_user};
use collab::roles::{Resolution, Role};
use collab::session::{Capability, ChannelChange, Session};
use collab::store::{Block, Channel, ChannelType, Store};
use collab::validator::{catch_vec_intersection, RolePermissionValidator};

fn strings(v: &[&str]) -> Vec<String> {
    v.iter().map(|s| s.to_string()).collect()
}

fn sorted(v: &[String]) -> Vec<String> {
    let mut v = v.to_vec();
    v.sort();
    v
}

fn role(id: &str, extends: &[&str], permissions: RolePermissions) -> Role {
    Role {
        id: id.to_string(),
        owner: "owner".to_string(),
        editors: Vec::new(),
        name: format!("role {id}"),
        extends: strings(extends),
        permissions,
    }
}

fn connect_only(labels: &[&str]) -> RolePermissions {
    RolePermissions { connect_blocks: strings(labels), ..Default::default() }
}

fn channel(id: &str, default_role: &str, labels: &[&str]) -> Channel {
    Channel {
        id: id.to_string(),
        channel_type: ChannelType::ServerHosted,
        roles: Vec::new(),
        default_role: default_role.to_string(),
        labels: strings(labels),
        description: String::new(),
        pinned_block: None,
        title: "title".to_string(),
        activity_table: "table".to_string(),
    }
}

fn block(id: &str, owner: &str) -> Block {
    Block { id: id.to_string(), content: "text".to_string(), owner: owner.to_string(), connected_channels: Vec::new() }
}

fn alice() -> Session {
    Session::new(Auth::Valid { info: AuthInfo { name: "alice".to_string() } })
}

struct RecordingPeer {
    received: Rc<RefCell<Vec<String>>>,
    broken: bool,
}

impl Peer for RecordingPeer {
    fn receive_message(&self, message: &LiveMessage) -> Result<(), String> {
        if self.broken {
            return Err("socket closed".to_string());
        }
        let text = match message {
            LiveMessage::BlockConnected { id } => format!("connected {id}"),
            LiveMessage::BlockDisconnected { id } => format!("disconnected {id}"),
            LiveMessage::LabelsChanged => "labels".to_string(),
            LiveMessage::DescriptionChanged => "description".to_string(),
            LiveMessage::BlockPinned { id } => format!("pinned {id:?}"),
            LiveMessage::BlockChanged { id } => format!("changed {id}"),
        };
        self.received.borrow_mut().push(text);
        Ok(())
    }
}

fn peer(broken: bool) -> (RecordingPeer, Rc<RefCell<Vec<String>>>) {
    let received = Rc::new(RefCell::new(Vec::new()));
    (RecordingPeer { received: received.clone(), broken }, received)
}

#[test]
fn label_gated_capability() {
    let permissions = connect_only(&["mod"]);
    let labels = strings(&["mod", "public"]);
    assert!(RolePermissionValidator::new(&permissions, &labels).can_connect_blocks());
    let labels = strings(&["public"]);
    assert!(!RolePermissionValidator::new(&permissions, &labels).can_connect_blocks());
}

#[test]
fn set_labels_ignores_channel_labels() {
    let permissions = RolePermissions { set_labels: true, ..Default::default() };
    let labels: Vec<String> = Vec::new();
    let validator = RolePermissionValidator::new(&permissions, &labels);
    assert!(validator.can_set_labels());
    assert!(!validator.can_connect_blocks());
    let permissions = RolePermissions { pin_block: strings(&["x"]), ..Default::default() };
    let labels = strings(&["x"]);
    let validator = RolePermissionValidator::new(&permissions, &labels);
    assert!(!validator.can_set_labels());
    assert!(validator.can_pin_block());
    assert!(!validator.can_view_blocks());
}

#[test]
fn intersection_of_lists() {
    assert!(catch_vec_intersection(&strings(&["a", "b"]), &strings(&["c", "b"])));
    assert!(!catch_vec_intersection(&strings(&["a", "b"]), &strings(&["c"])));
    assert!(!catch_vec_intersection(&Vec::new(), &strings(&["c"])));
}

#[test]
fn append_unique_keeps_order_and_skips_repeats() {
    let mut a = strings(&["x", "y"]);
    append_vec_unique(&mut a, &strings(&["y", "z", "z", "x", "w"]));
    assert_eq!(a, strings(&["x", "y", "z", "w"]));
}

#[test]
fn merge_with_itself_is_unchanged() {
    let p = RolePermissions {
        view_blocks: strings(&["a", "b"]),
        connect_blocks: strings(&["c"]),
        live: strings(&["d"]),
        set_labels: true,
        ..Default::default()
    };
    let mut q = p.copied();
    q.add(&p);
    assert_eq!(q.view_blocks, p.view_blocks);
    assert_eq!(q.connect_blocks, p.connect_blocks);
    assert_eq!(q.live, p.live);
    assert_eq!(q.set_labels, p.set_labels);
    assert!(q.change_roles.is_empty());
}

#[test]
fn merge_is_union_and_or() {
    let mut p = RolePermissions { connect_blocks: strings(&["a"]), ..Default::default() };
    let q = RolePermissions { connect_blocks: strings(&["b", "a"]), set_labels: true, ..Default::default() };
    p.add(&q);
    assert_eq!(p.connect_blocks, strings(&["a", "b"]));
    assert!(p.set_labels);
}

#[test]
fn resolve_chain_keeps_every_ancestor_grant() {
    let mut store = Store::new();
    store.insert_role(role("a", &["b"], connect_only(&["la"])));
    store.insert_role(role("b", &["c"], RolePermissions { pin_block: strings(&["lb"]), ..Default::default() }));
    store.insert_role(role("c", &[], RolePermissions { connect_blocks: strings(&["lc"]), set_labels: true, ..Default::default() }));
    let resolved = resolve_role(&store, &"a".to_string()).ok().unwrap();
    assert_eq!(resolved.id, "a");
    assert_eq!(resolved.extends, strings(&["b"]));
    assert_eq!(sorted(&resolved.permissions.connect_blocks), strings(&["la", "lc"]));
    assert_eq!(resolved.permissions.pin_block, strings(&["lb"]));
    assert!(resolved.permissions.set_labels);
}

#[test]
fn resolve_order_of_extends_does_not_matter() {
    let build = |extends: &[&str]| {
        let mut store = Store::new();
        store.insert_role(role("a", extends, connect_only(&["x"])));
        store.insert_role(role("b", &["d"], connect_only(&["y"])));
        store.insert_role(role("c", &[], RolePermissions { view_blocks: strings(&["v"]), ..Default::default() }));
        store.insert_role(role("d", &[], connect_only(&["z", "x"])));
        store
    };
    let one = resolve_role(&build(&["b", "c"]), &"a".to_string()).ok().unwrap();
    let two = resolve_role(&build(&["c", "b"]), &"a".to_string()).ok().unwrap();
    assert_eq!(sorted(&one.permissions.connect_blocks), sorted(&two.permissions.connect_blocks));
    assert_eq!(sorted(&one.permissions.connect_blocks), strings(&["x", "y", "z"]));
    assert_eq!(one.permissions.view_blocks, two.permissions.view_blocks);
}

#[test]
fn resolve_detects_self_extension() {
    let mut store = Store::new();
    store.insert_role(role("a", &["a"], RolePermissions::default()));
    match resolve_role(&store, &"a".to_string()) {
        Err(RoleWrappedError::Recursion(id)) => assert_eq!(id, "a"),
        _ => panic!("expected a recursion error"),
    }
}

#[test]
fn resolve_detects_two_cycle() {
    let mut store = Store::new();
    store.insert_role(role("a", &["b"], RolePermissions::default()));
    store.insert_role(role("b", &["a"], RolePermissions::default()));
    match resolve_role(&store, &"a".to_string()) {
        Err(RoleWrappedError::Recursion(id)) => assert_eq!(id, "a"),
        _ => panic!("expected a recursion error"),
    }
}

#[test]
fn resolve_detects_long_cycle() {
    let mut store = Store::new();
    store.insert_role(role("a", &["b"], RolePermissions::default()));
    store.insert_role(role("b", &["c"], RolePermissions::default()));
    store.insert_role(role("c", &["d"], RolePermissions::default()));
    store.insert_role(role("d", &["a"], RolePermissions::default()));
    assert!(matches!(resolve_role(&store, &"a".to_string()), Err(RoleWrappedError::Recursion(_))));
}

#[test]
fn resolve_missing_role_is_not_found() {
    let mut store = Store::new();
    assert!(matches!(
        resolve_role(&store, &"a".to_string()),
        Err(RoleWrappedError::General(Error::Db(DbError::NotFound)))
    ));
    store.insert_role(role("a", &["ghost"], RolePermissions::default()));
    assert!(matches!(
        resolve_role(&store, &"a".to_string()),
        Err(RoleWrappedError::General(Error::Db(DbError::NotFound)))
    ));
}

#[test]
fn resolution_steps_one_role_at_a_time() {
    let start = RolePermissions { view_blocks: strings(&["v"]), ..Default::default() };
    let res = Resolution::new(&"a".to_string(), &start, &strings(&["b"])).ok().unwrap();
    assert_eq!(res.next_role_id(), Some("b".to_string()));
    let res = res.absorb(&role("b", &["c"], connect_only(&["x"]))).ok().unwrap();
    assert_eq!(res.next_role_id(), Some("c".to_string()));
    let res = res.absorb(&role("c", &[], connect_only(&["y"]))).ok().unwrap();
    assert_eq!(res.next_role_id(), None);
    let p = res.into_permissions();
    assert_eq!(p.connect_blocks, strings(&["x", "y"]));
    assert_eq!(p.view_blocks, strings(&["v"]));
    let res = Resolution::new(&"a".to_string(), &start, &strings(&["b"])).ok().unwrap();
    assert!(matches!(res.absorb(&role("b", &["a"], RolePermissions::default())), Err(RoleWrappedError::Recursion(_))));
}

#[test]
fn user_role_override_first_match_wins() {
    let mut c = channel("ch", "default", &[]);
    c.roles = vec![
        ("bob".to_string(), "r1".to_string()),
        ("alice".to_string(), "r2".to_string()),
        ("alice".to_string(), "r3".to_string()),
    ];
    assert_eq!(role_id_for_user(&c, &"alice".to_string()), "r2");
    assert_eq!(role_id_for_user(&c, &"carol".to_string()), "default");
}

#[test]
fn resolve_user_role_returns_channel_and_role() {
    let mut store = Store::new();
    store.insert_role(role("r", &[], connect_only(&["editor"])));
    store.insert_channel(channel("ch", "r", &["editor"]));
    let (resolved, c) = resolve_user_role(&store, &"ch".to_string(), &"alice".to_string()).ok().unwrap();
    assert_eq!(resolved.id, "r");
    assert_eq!(c.labels, strings(&["editor"]));
    assert!(matches!(
        resolve_user_role(&store, &"nope".to_string(), &"alice".to_string()),
        Err(RoleWrappedError::General(Error::Db(DbError::NotFound)))
    ));
}

#[test]
fn fan_out_isolation() {
    let mut live: LiveChannel<RecordingPeer> = LiveChannel::new();
    let (p1, r1) = peer(false);
    let (p2, r2) = peer(true);
    let (p3, r3) = peer(false);
    let x = "x".to_string();
    let h1 = live.connect(p1, &x);
    let h2 = live.connect(p2, &x);
    let h3 = live.connect(p3, &x);
    let deliveries = live.handle_message(&x, &LiveMessage::LabelsChanged);
    assert_eq!(deliveries.len(), 3);
    assert_eq!(deliveries[0].peer_id, h1.peer_id);
    assert_eq!(deliveries[1].peer_id, h2.peer_id);
    assert_eq!(deliveries[2].peer_id, h3.peer_id);
    assert!(deliveries[0].result.is_ok());
    assert!(deliveries[1].result.is_err());
    assert!(deliveries[2].result.is_ok());
    assert_eq!(*r1.borrow(), strings(&["labels"]));
    assert!(r2.borrow().is_empty());
    assert_eq!(*r3.borrow(), strings(&["labels"]));
}

#[test]
fn peer_ids_are_shared_across_channels() {
    let mut live: LiveChannel<RecordingPeer> = LiveChannel::new();
    let h1 = live.connect(peer(false).0, &"x".to_string());
    let h2 = live.connect(peer(false).0, &"y".to_string());
    assert_eq!(h1.peer_id, 0);
    assert_eq!(h2.peer_id, 1);
    assert_eq!(h2.channel_id, "y");
    assert!(live.handle_message(&"z".to_string(), &LiveMessage::DescriptionChanged).is_empty());
}

#[test]
fn disconnect_correctness() {
    let mut live: LiveChannel<RecordingPeer> = LiveChannel::new();
    let (p1, r1) = peer(false);
    let (p2, r2) = peer(false);
    let x = "x".to_string();
    let h1 = live.connect(p1, &x);
    let h2 = live.connect(p2, &x);
    let again = collab::live::Handle { channel_id: h1.channel_id.clone(), peer_id: h1.peer_id };
    assert!(live.disconnect(h1).is_ok());
    let deliveries = live.handle_message(&x, &LiveMessage::BlockConnected { id: "b".to_string() });
    assert_eq!(deliveries.len(), 1);
    assert_eq!(deliveries[0].peer_id, h2.peer_id);
    assert!(r1.borrow().is_empty());
    assert_eq!(*r2.borrow(), strings(&["connected b"]));
    match live.disconnect(again) {
        Err(DisconnectError::PeerNotFound(id)) => assert_eq!(id, 0),
        _ => panic!("expected PeerNotFound"),
    }
}

#[test]
fn disconnect_unknown_channel() {
    let mut live: LiveChannel<RecordingPeer> = LiveChannel::new();
    let handle = collab::live::Handle { channel_id: "nowhere".to_string(), peer_id: 0 };
    match live.disconnect(handle) {
        Err(DisconnectError::ChannelNotFound(c)) => assert_eq!(c, "nowhere"),
        _ => panic!("expected ChannelNotFound"),
    }
}

fn scenario(labels: &[&str]) -> (Store, LiveChannel<RecordingPeer>, Rc<RefCell<Vec<String>>>) {
    let mut store = Store::new();
    store.insert_role(role("default", &[], connect_only(&["editor"])));
    store.insert_channel(channel("ch", "default", labels));
    store.insert_block(block("blk", "bob"));
    let mut live: LiveChannel<RecordingPeer> = LiveChannel::new();
    let (p, received) = peer(false);
    live.connect(p, &"ch".to_string());
    (store, live, received)
}

#[test]
fn end_to_end_connect_block() {
    let (mut store, live, received) = scenario(&["editor"]);
    let mut outbox: Vec<(String, LiveMessage)> = Vec::new();
    let mut activities: Vec<Activity> = Vec::new();
    let r = alice().connect_block_to_channel(&mut store, &mut outbox, &mut activities, &"ch".to_string(), &"blk".to_string());
    assert!(r.is_ok());
    let b = store.get_block(&"blk".to_string()).ok().unwrap();
    assert_eq!(b.connected_channels, strings(&["ch"]));
    assert_eq!(outbox.len(), 1);
    assert_eq!(outbox[0].0, "ch");
    assert!(matches!(&outbox[0].1, LiveMessage::BlockConnected { id } if id == "blk"));
    for (channel_id, message) in &outbox {
        live.handle_message(channel_id, message);
    }
    assert_eq!(*received.borrow(), strings(&["connected blk"]));
    assert_eq!(activities.len(), 1);
    assert!(matches!(
        &activities[0],
        Activity::BlockConnectedToChannel { block_id, id, by } if block_id == "blk" && id == "ch" && by == "alice"
    ));
}

#[test]
fn end_to_end_unauthorized() {
    let (mut store, _live, _received) = scenario(&["viewer"]);
    let mut outbox: Vec<(String, LiveMessage)> = Vec::new();
    let mut activities: Vec<Activity> = Vec::new();
    let r = alice().connect_block_to_channel(&mut store, &mut outbox, &mut activities, &"ch".to_string(), &"blk".to_string());
    assert!(matches!(r, Err(RoleWrappedError::General(Error::Unauthorized(_)))));
    let b = store.get_block(&"blk".to_string()).ok().unwrap();
    assert!(b.connected_channels.is_empty());
    assert!(outbox.is_empty());
    assert!(activities.is_empty());
}

#[test]
fn invalid_identity_is_refused() {
    let (mut store, _live, _received) = scenario(&["editor"]);
    let session = Session::new(Auth::Invalid(InvalidAuthData::MismatchedKeys));
    assert!(matches!(session.auth(), Err(Error::Unauthorized(_))));
    let mut outbox: Vec<(String, LiveMessage)> = Vec::new();
    let mut activities: Vec<Activity> = Vec::new();
    let r = session.change_channel_description(&mut store, &mut outbox, &mut activities, &"ch".to_string(), &"new".to_string());
    assert!(matches!(r, Err(RoleWrappedError::General(Error::Unauthorized(_)))));
    assert!(outbox.is_empty());
}

#[test]
fn missing_block_fails_without_effects() {
    let (mut store, _live, _received) = scenario(&["editor"]);
    let mut outbox: Vec<(String, LiveMessage)> = Vec::new();
    let mut activities: Vec<Activity> = Vec::new();
    let r = alice().connect_block_to_channel(&mut store, &mut outbox, &mut activities, &"ch".to_string(), &"nope".to_string());
    assert!(matches!(r, Err(RoleWrappedError::General(Error::Db(DbError::NotFound)))));
    assert!(outbox.is_empty());
    assert!(activities.is_empty());
}

#[test]
fn labels_change_is_gated_by_the_flag() {
    let mut store = Store::new();
    store.insert_role(role("setter", &[], RolePermissions { set_labels: true, ..Default::default() }));
    store.insert_channel(channel("ch", "setter", &[]));
    let mut outbox: Vec<(String, LiveMessage)> = Vec::new();
    let mut activities: Vec<Activity> = Vec::new();
    let r = alice().change_channel_labels(&mut store, &mut outbox, &mut activities, &"ch".to_string(), &strings(&["new"]));
    assert!(r.is_ok());
    assert_eq!(store.get_channel(&"ch".to_string()).ok().unwrap().labels, strings(&["new"]));
    assert!(matches!(&outbox[0].1, LiveMessage::LabelsChanged));
    assert!(matches!(&activities[0], Activity::ChannelLabelsChanged { id, by } if id == "ch" && by == "alice"));
}

#[test]
fn pin_and_disconnect_and_describe() {
    let mut store = Store::new();
    let all = RolePermissions {
        pin_block: strings(&["l"]),
        disconnect_blocks: strings(&["l"]),
        change_description: strings(&["l"]),
        connect_blocks: strings(&["l"]),
        ..Default::default()
    };
    store.insert_role(role("r", &[], all));
    store.insert_channel(channel("ch", "r", &["l"]));
    store.insert_block(block("blk", "bob"));
    let mut outbox: Vec<(String, LiveMessage)> = Vec::new();
    let mut activities: Vec<Activity> = Vec::new();
    let s = alice();
    let ch = "ch".to_string();
    assert!(s.connect_block_to_channel(&mut store, &mut outbox, &mut activities, &ch, &"blk".to_string()).is_ok());
    assert!(s.disconnect_block_from_channel(&mut store, &mut outbox, &mut activities, &ch, &"blk".to_string()).is_ok());
    assert!(store.get_block(&"blk".to_string()).ok().unwrap().connected_channels.is_empty());
    assert!(matches!(
        s.disconnect_block_from_channel(&mut store, &mut outbox, &mut activities, &ch, &"blk".to_string()),
        Err(RoleWrappedError::General(Error::Db(DbError::NotFound)))
    ));
    assert!(s.pin_channel_block(&mut store, &mut outbox, &mut activities, &ch, &Some("blk".to_string())).is_ok());
    assert_eq!(store.get_channel(&ch).ok().unwrap().pinned_block, Some("blk".to_string()));
    assert!(s.change_channel_description(&mut store, &mut outbox, &mut activities, &ch, &"about".to_string()).is_ok());
    assert_eq!(store.get_channel(&ch).ok().unwrap().description, "about");
    assert_eq!(outbox.len(), 4);
    assert_eq!(activities.len(), 4);
    assert!(matches!(s.authorize(&store, &ch, Capability::ViewBlocks), Err(RoleWrappedError::General(Error::Unauthorized(_)))));
    assert_eq!(s.authorize(&store, &ch, Capability::PinBlock).ok().unwrap(), "alice");
}

#[test]
fn activity_splits_into_table_entries() {
    let a = Activity::BlockConnectedToChannel { block_id: "b".to_string(), id: "c".to_string(), by: "u".to_string() };
    let entries = a.process_into();
    assert_eq!(entries.len(), 2);
    assert!(matches!(&entries[0].0, ActivityTablesOf::User { name } if name == "u"));
    assert!(matches!(
        &entries[0].1[0],
        TableActivity::User { activity: UserActivity::BlockConnectedToChannel { id, block_id } } if id == "c" && block_id == "b"
    ));
    assert!(matches!(&entries[1].0, ActivityTablesOf::Channel { id } if id == "c"));
    assert!(matches!(
        &entries[1].1[0],
        TableActivity::Channel { activity: ChannelActivity::BlockConnected { id, by } } if id == "b" && by == "u"
    ));
    let pinned = Activity::BlockPinnedOnChannel { block_id: None, id: "c".to_string(), by: "u".to_string() };
    assert_eq!(pinned.process_into().len(), 2);
    assert!(Activity::Joined { by: "u".to_string() }.process_into().is_empty());
}

#[test]
fn auth_from_claims_outcomes() {
    let access = || Some(AccessClaims { name: "alice".to_string(), key: "k1".to_string(), exp: 10 });
    let key = |k: &str| Some(KeyClaims { key: k.to_string(), exp: 10 });
    match Auth::from_claims(access(), key("k1")) {
        Auth::Valid { info } => assert_eq!(info.name, "alice"),
        _ => panic!("expected a valid identity"),
    }
    assert!(matches!(Auth::from_claims(access(), key("k2")), Auth::Invalid(InvalidAuthData::MismatchedKeys)));
    assert!(matches!(
        Auth::from_claims(None, key("k1")),
        Auth::Invalid(InvalidAuthData::Token(InvalidAuthTokenData::Access))
    ));
    assert!(matches!(
        Auth::from_claims(access(), None),
        Auth::Invalid(InvalidAuthData::Token(InvalidAuthTokenData::Key))
    ));
    let valid = Auth::Valid { info: AuthInfo { name: "bob".to_string() } };
    assert!(matches!(AuthMe::from_auth(&valid), AuthMe::Valid { name } if name == "bob"));
    assert!(matches!(valid.as_result(), Ok(info) if info.name == "bob"));
    assert!(matches!(AuthMe::from_auth(&Auth::Invalid(InvalidAuthData::MismatchedKeys)), AuthMe::Invalid));
}

#[test]
fn only_the_owner_changes_a_block() {
    let mut store = Store::new();
    let mut b = block("blk", "alice");
    b.connected_channels = strings(&["c1", "c2"]);
    store.insert_block(b);
    let mut outbox: Vec<(String, LiveMessage)> = Vec::new();
    let bob = Session::new(Auth::Valid { info: AuthInfo { name: "bob".to_string() } });
    assert!(matches!(
        bob.change_block(&mut store, &mut outbox, &"blk".to_string(), &"new".to_string()),
        Err(Error::Unauthorized(_))
    ));
    assert_eq!(store.get_block(&"blk".to_string()).ok().unwrap().content, "text");
    assert!(outbox.is_empty());
    assert!(alice().change_block(&mut store, &mut outbox, &"blk".to_string(), &"new".to_string()).is_ok());
    assert_eq!(store.get_block(&"blk".to_string()).ok().unwrap().content, "new");
    assert_eq!(outbox.len(), 2);
    assert_eq!(outbox[0].0, "c1");
    assert_eq!(outbox[1].0, "c2");
    assert!(matches!(&outbox[1].1, LiveMessage::BlockChanged { id } if id == "blk"));
    assert!(matches!(
        alice().change_block(&mut store, &mut outbox, &"nope".to_string(), &"x".to_string()),
        Err(Error::Db(DbError::NotFound))
    ));
}

#[test]
fn role_changes_by_owner_editor_and_stranger() {
    let mut store = Store::new();
    let mut r = role("r", &[], RolePermissions::default());
    r.owner = "alice".to_string();
    r.editors = strings(&["bob"]);
    store.insert_role(r);
    let bob = Session::new(Auth::Valid { info: AuthInfo { name: "bob".to_string() } });
    let carol = Session::new(Auth::Valid { info: AuthInfo { name: "carol".to_string() } });
    let id = "r".to_string();
    let perms = connect_only(&["x"]);
    assert!(bob.change_role(&mut store, &id, &"renamed".to_string(), &Vec::new(), &strings(&["carol"]), &perms).is_ok());
    let after = store.get_role(&id).ok().unwrap();
    assert_eq!(after.name, "renamed");
    assert_eq!(after.editors, strings(&["bob"]));
    assert_eq!(after.permissions.connect_blocks, strings(&["x"]));
    assert!(matches!(
        carol.change_role(&mut store, &id, &"mine".to_string(), &Vec::new(), &Vec::new(), &perms),
        Err(Error::Unauthorized(_))
    ));
    assert!(alice().change_role(&mut store, &id, &"owned".to_string(), &Vec::new(), &strings(&["carol"]), &perms).is_ok());
    assert_eq!(store.get_role(&id).ok().unwrap().editors, strings(&["carol"]));
}

#[test]
fn role_creation_needs_existing_parents() {
    let mut store = Store::new();
    store.insert_role(role("base", &[], RolePermissions::default()));
    let s = alice();
    let r = s.create_role(&mut store, &"new".to_string(), &"New".to_string(), &strings(&["base", "ghost"]), &Vec::new(), &RolePermissions::default());
    match r {
        Err(collab::errors::CreateRoleError::RoleDoesNotExist(id, DbError::NotFound)) => assert_eq!(id, "ghost"),
        _ => panic!("expected RoleDoesNotExist"),
    }
    assert!(store.get_role(&"new".to_string()).is_err());
    assert!(s.create_role(&mut store, &"new".to_string(), &"New".to_string(), &strings(&["base"]), &Vec::new(), &RolePermissions::default()).is_ok());
    let created = store.get_role(&"new".to_string()).ok().unwrap();
    assert_eq!(created.owner, "alice");
    assert_eq!(created.extends, strings(&["base"]));
}

#[test]
fn registration_rules() {
    assert!(validate_registration("alice_01", "secret12").is_ok());
    assert!(matches!(validate_registration("al ice", "secret12"), Err(RegisterError::InvaildNameChars)));
    assert!(matches!(validate_registration("al", "secret12"), Err(RegisterError::BadNameLength)));
    assert!(matches!(validate_registration("a23456789012345678901", "secret12"), Err(RegisterError::BadNameLength)));
    assert!(validate_registration("a2345678901234567890", "secret12").is_ok());
    assert!(matches!(validate_registration("alice", "short6"), Err(RegisterError::TooShortPassword)));
    assert!(validate_registration("alice", "seven77").is_ok());
    assert!(matches!(validate_registration("alice", &"x".repeat(51)), Err(RegisterError::TooLongPassword)));
    assert!(validate_registration("alice", &"x".repeat(50)).is_ok());
    assert!(matches!(validate_registration("alice", "ééé"), Err(RegisterError::TooShortPassword)));
    assert!(validate_registration("alice", "éééé").is_ok());
}

#[test]
fn credential_uniqueness() {
    let name = "alice".to_string();
    let email = "a@x".to_string();
    let u = CredentialUniqueness::of(None, &name, &email);
    assert!(u.name && u.email);
    assert!(check_uniqueness(&u).is_ok());
    let other = "bob".to_string();
    let u = CredentialUniqueness::of(Some((&name, &other)), &name, &email);
    assert!(!u.name && u.email);
    assert!(matches!(check_uniqueness(&u), Err(RegisterError::NameTaken)));
    let u = CredentialUniqueness::of(Some((&name, &email)), &name, &email);
    assert!(matches!(check_uniqueness(&u), Err(RegisterError::EmailTaken)));
}

#[test]
fn page_size_is_clamped() {
    assert_eq!(query_limit(None), 30);
    assert_eq!(query_limit(Some(-5)), 0);
    assert_eq!(query_limit(Some(12)), 12);
    assert_eq!(query_limit(Some(31)), 30);
}

#[test]
fn public_view_of_identity() {
    let valid = Auth::Valid { info: AuthInfo { name: "ann".to_string() } };
    assert!(matches!(AuthPublic::from_auth(&valid), AuthPublic::Valid { name } if name == "ann"));
    let refused = Auth::Invalid(InvalidAuthData::Token(InvalidAuthTokenData::Key));
    assert!(matches!(AuthPublic::from_auth(&refused), AuthPublic::Invalid { reason } if reason == "key token"));
}

#[test]
fn role_creation_needs_an_identity() {
    let mut store = Store::new();
    let session = Session::new(Auth::Invalid(InvalidAuthData::Token(InvalidAuthTokenData::Access)));
    let r = session.create_role(&mut store, &"r".to_string(), &"R".to_string(), &Vec::new(), &Vec::new(), &RolePermissions::default());
    assert!(matches!(r, Err(collab::errors::CreateRoleError::General(Error::Unauthorized(_)))));
    assert!(store.get_role(&"r".to_string()).is_err());
}

#[test]
fn password_check_goes_through_bcrypt() {
    let hash = pwhash::bcrypt::hash("correct horse").unwrap();
    let user = User {
        name: "alice".to_string(),
        email: "a@x".to_string(),
        password_hash: hash,
        groups: Vec::new(),
        activity_table: "t".to_string(),
    };
    assert!(check_password("correct horse", &user).is_ok());
    assert!(matches!(check_password("wrong horse", &user), Err(LoginError::InvalidCredentials)));
    let broken = User { password_hash: "$2y$05$\u{1}bad".to_string(), ..user };
    assert!(matches!(check_password("correct horse", &broken), Err(LoginError::InvalidCredentials)));
    let garbage = User { password_hash: "not a hash".to_string(), ..broken };
    assert!(matches!(check_password("correct horse", &garbage), Err(LoginError::InvalidCredentials)));
}

#[test]
fn resolution_refuses_a_repeated_or_own_parent() {
    let start = RolePermissions::default();
    match Resolution::new(&"a".to_string(), &start, &strings(&["b", "b"])) {
        Err(RoleWrappedError::Recursion(id)) => assert_eq!(id, "b"),
        _ => panic!("expected a recursion error"),
    }
    assert!(matches!(Resolution::new(&"a".to_string(), &start, &strings(&["a"])), Err(RoleWrappedError::Recursion(_))));
}

#[test]
fn resolve_diamond_is_recursion() {
    let mut store = Store::new();
    store.insert_role(role("a", &["b", "c"], RolePermissions::default()));
    store.insert_role(role("b", &["d"], RolePermissions::default()));
    store.insert_role(role("c", &["d"], RolePermissions::default()));
    store.insert_role(role("d", &[], RolePermissions::default()));
    match resolve_role(&store, &"a".to_string()) {
        Err(RoleWrappedError::Recursion(id)) => assert_eq!(id, "d"),
        _ => panic!("expected a recursion error"),
    }
}

#[test]
fn resolve_missing_ancestor_is_not_found() {
    let mut store = Store::new();
    store.insert_role(role("a", &["b"], RolePermissions::default()));
    store.insert_role(role("b", &["c"], RolePermissions::default()));
    assert!(matches!(
        resolve_role(&store, &"a".to_string()),
        Err(RoleWrappedError::General(Error::Db(DbError::NotFound)))
    ));
}

#[test]
fn password_hash_outside_ascii_is_refused() {
    let user = User {
        name: "alice".to_string(),
        email: "a@x".to_string(),
        password_hash: format!("$2b$10${}{}", '\u{80}', "a".repeat(20)),
        groups: Vec::new(),
        activity_table: "t".to_string(),
    };
    assert!(matches!(check_password("pw", &user), Err(LoginError::InvalidCredentials)));
}

#[test]
fn channel_change_effects() {
    let change = ChannelChange::PinBlock { block_id: Some("blk".to_string()) };
    assert!(matches!(change.capability(), Capability::PinBlock));
    let (message, activity) = change.effects(&"ch".to_string(), &"alice".to_string());
    assert!(matches!(message, LiveMessage::BlockPinned { id: Some(ref b) } if b == "blk"));
    assert!(matches!(
        activity,
        Activity::BlockPinnedOnChannel { block_id: Some(ref b), ref id, ref by } if b == "blk" && id == "ch" && by == "alice"
    ));
    let (message, _) = ChannelChange::Labels.effects(&"ch".to_string(), &"alice".to_string());
    assert!(matches!(message, LiveMessage::LabelsChanged));
    assert!(matches!(ChannelChange::Labels.capability(), Capability::SetLabels));
}
