use graphify::plugin::{
    derive_workspace_key, now_epoch_seconds, timestamp_of, GraphUpdateEvent, GraphUpdateKind,
    GraphifyPlugin, WorkspaceContext,
};
use graphify::plugin_memory::{HandoffPayload, OpenDocPayload, PluginMemoryEnvelope, ReviewPayload};
use graphify::types::NodeId;

/// A plugin that echoes payloads and records the last graph update.
#[derive(Debug, Default)]
struct EchoHandoffPlugin {
    id: &'static str,
    workspace_key: String,
    last_event: Option<GraphUpdateEvent>,
}

impl GraphifyPlugin for EchoHandoffPlugin {
    fn get_id(&self) -> &str {
        self.id
    }

    fn bind(&mut self, ctx: WorkspaceContext) {
        self.workspace_key = ctx.workspace_key;
    }

    fn get_workspace_key(&self) -> &str {
        &self.workspace_key
    }

    fn sync_toon(&mut self, opt_toon: Option<Vec<u8>>) -> Vec<u8> {
        match opt_toon {
            Some(toon) => toon,
            None => format!("toon:{}", self.workspace_key).into_bytes(),
        }
    }

    fn on_graph_updated(&mut self, event: &GraphUpdateEvent) {
        self.last_event = Some(event.clone());
    }
}

/// A plugin that implements only the core methods.
#[derive(Debug, Default)]
struct LegacyPlugin {
    workspace_key: String,
}

impl GraphifyPlugin for LegacyPlugin {
    fn get_id(&self) -> &str {
        "graphify-plugin-legacy"
    }

    fn bind(&mut self, ctx: WorkspaceContext) {
        self.workspace_key = ctx.workspace_key;
    }

    fn get_workspace_key(&self) -> &str {
        &self.workspace_key
    }

    fn sync_toon(&mut self, _opt_toon: Option<Vec<u8>>) -> Vec<u8> {
        Vec::new()
    }
}

fn echo() -> EchoHandoffPlugin {
    EchoHandoffPlugin { id: "graphify-plugin-handoff", workspace_key: String::new(), last_event: None }
}

#[test]
fn plugin_id_is_stable() {
    let plugin = echo();
    assert_eq!(plugin.get_id(), "graphify-plugin-handoff");
}

#[test]
fn bind_roundtrips_workspace_key() {
    let mut plugin = echo();
    let ctx = WorkspaceContext::new("w-9f8a2b1c-8e7d-4c3b", "graphify-monorepo", "/tmp/ws");
    plugin.bind(ctx);
    assert_eq!(plugin.get_workspace_key(), "w-9f8a2b1c-8e7d-4c3b");
}

#[test]
fn sync_toon_passthrough_and_proactive() {
    let mut plugin = echo();
    let ctx = WorkspaceContext::new("w-abc", "ws", "/tmp/ws");
    plugin.bind(ctx);
    let passthrough = plugin.sync_toon(Some(b"graph".to_vec()));
    assert_eq!(passthrough, b"graph".to_vec());
    let proactive = plugin.sync_toon(None);
    assert_eq!(proactive, b"toon:w-abc".to_vec());
}

#[test]
fn unbound_workspace_key_is_empty() {
    let plugin = echo();
    assert_eq!(plugin.get_workspace_key(), "");
}

#[test]
fn graph_update_event_carries_workspace_and_nodes() {
    let nodes = vec![NodeId("a.rs".into()), NodeId("b.rs".into())];
    let event = GraphUpdateEvent::new("w-9f8a", nodes.clone(), GraphUpdateKind::Indexed);
    assert_eq!(event.workspace_key, "w-9f8a");
    assert_eq!(event.modified_nodes, nodes);
    assert_eq!(event.event, GraphUpdateKind::Indexed);
}

#[test]
fn plugin_receives_graph_update_notification() -> Result<(), String> {
    let mut plugin = echo();
    let ctx = WorkspaceContext::new("w-abc", "ws", "/tmp/ws");
    plugin.bind(ctx);
    let event = GraphUpdateEvent::new("w-abc", vec![NodeId("main.rs".into())], GraphUpdateKind::Manual);
    plugin.on_graph_updated(&event);
    let received = plugin.last_event.ok_or("plugin must record the event")?;
    assert_eq!(received.workspace_key, "w-abc");
    assert_eq!(received.event, GraphUpdateKind::Manual);
    assert_eq!(received.modified_nodes, vec![NodeId("main.rs".into())]);
    Ok(())
}

#[test]
fn plugin_without_hook_remains_compatible() {
    let mut plugin = LegacyPlugin::default();
    let ctx = WorkspaceContext::new("w-abc", "ws", "/tmp/ws");
    plugin.bind(ctx);
    assert_eq!(plugin.get_workspace_key(), "w-abc");
    let event = GraphUpdateEvent::new("w-abc", Vec::new(), GraphUpdateKind::Indexed);
    plugin.on_graph_updated(&event);
}

#[test]
fn workspace_context_keeps_fields_and_stamps_time() {
    let ctx = WorkspaceContext::new("k", "name", "/root");
    assert_eq!(ctx.workspace_key, "k");
    assert_eq!(ctx.workspace_name, "name");
    assert_eq!(ctx.root_path, "/root");
    assert!(ctx.timestamp > 0);
}

#[test]
fn workspace_key_is_hex_of_path_hash() {
    let a = derive_workspace_key("/tmp/ws-a");
    let b = derive_workspace_key("/tmp/ws-a");
    let c = derive_workspace_key("/tmp/ws-b");
    assert_eq!(a, b);
    assert_ne!(a, c);
    assert!(!a.is_empty() && a.len() <= 16);
    assert!(a.chars().all(|ch| ch.is_ascii_hexdigit() && !ch.is_ascii_uppercase()));
    assert_ne!(a, "/tmp/ws-a");
}

#[test]
fn test_payloads_version_independently() {
    assert_eq!(OpenDocPayload::SCHEMA_VERSION, 1);
    assert_eq!(ReviewPayload::SCHEMA_VERSION, 1);
    assert_eq!(HandoffPayload::SCHEMA_VERSION, 1);
}

#[test]
fn envelope_is_stamped_with_format_version() {
    let envelope = PluginMemoryEnvelope::new(
        "ws_backend_core_9921",
        "opendoc",
        "rec-001",
        "doc_chunk_assoc",
        1_786_252_800,
        vec!["docs/guide.md".to_string()],
        7u32,
    );
    assert_eq!(envelope.format_version, PluginMemoryEnvelope::<()>::FORMAT_VERSION);
    assert_eq!(envelope.format_version, 1);
    assert_eq!(envelope.workspace_key, "ws_backend_core_9921");
    assert_eq!(envelope.plugin_id, "opendoc");
    assert_eq!(envelope.record_id, "rec-001");
    assert_eq!(envelope.record_kind, "doc_chunk_assoc");
    assert_eq!(envelope.created_at, 1_786_252_800);
    assert_eq!(envelope.source_refs, vec!["docs/guide.md".to_string()]);
    assert_eq!(envelope.payload, 7);
}

#[test]
fn timestamp_follows_the_clock_reading() {
    assert_eq!(timestamp_of(None), 0);
    assert_eq!(timestamp_of(Some(0)), 0);
    assert_eq!(timestamp_of(Some(1_700_000_000)), 1_700_000_000);
    assert_eq!(timestamp_of(Some(i64::MAX as u64)), i64::MAX);
    assert_eq!(timestamp_of(Some(i64::MAX as u64 + 1)), i64::MAX);
    assert_eq!(timestamp_of(Some(u64::MAX)), i64::MAX);
    // The clock of this machine reads after 2020.
    assert!(now_epoch_seconds() > 1_577_836_800);
    assert!(WorkspaceContext::new("w", "n", "/r").timestamp > 1_577_836_800);
}
