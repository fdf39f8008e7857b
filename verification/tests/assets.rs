use std::collections::HashMap;

use terminalt::asset_files::{new_document, FoundFile, LoadState};
use terminalt::assets::{duplicate_name, is_loopback_host, mask_target, AssetStore};
use terminalt::connections::{KeyFile, credential_reference, proxy_credential_reference};
use terminalt::error::AppError;
use terminalt::models::{
    AssetDocument, AuthType, ConnectionProfile, ConnectionRequest, GroupNameRequest, ProxyType,
    SaveConnectionRequest, SaveProxyRequest, SaveTunnelRequest, TunnelKind, TunnelStartPolicy,
};
use terminalt::routes::{credential_lookups, CredentialAnswers};
use terminalt::vault::{VaultAction, VaultChange, VaultRun};

const DEFAULT_GROUP_ID: &str = "default";

/// A store with a credential store in memory, and what was written last.
struct Desk {
    store: AssetStore,
    vault: HashMap<String, String>,
    vault_works: bool,
    disk_works: bool,
    written: Option<String>,
}

fn vault_down() -> AppError {
    AppError::credential(
        "CREDENTIAL-STORE-UNAVAILABLE",
        "凭据库不可用",
        "simulated unavailable store",
        true,
    )
}

impl Desk {
    fn new() -> Self {
        Desk {
            store: AssetStore::new(new_document("2026-01-01T00:00:00+00:00")),
            vault: HashMap::new(),
            vault_works: true,
            disk_works: true,
            written: None,
        }
    }

    fn read(&self, reference: &Option<String>) -> Result<Option<String>, AppError> {
        Ok(reference
            .as_ref()
            .and_then(|reference| self.vault.get(reference).cloned()))
    }

    fn apply(&mut self, change: VaultChange) -> Result<(), AppError> {
        match change {
            VaultChange::Store { reference, secret } => {
                if !self.vault_works {
                    return Err(vault_down());
                }
                self.vault.insert(reference, secret);
            }
            VaultChange::Delete { reference } => {
                self.vault.remove(&reference);
            }
        }
        Ok(())
    }

    fn play(&mut self, mut run: VaultRun, document: &AssetDocument) -> Result<(), AppError> {
        loop {
            match run.action() {
                VaultAction::Apply(change) => {
                    let outcome = self.apply(change);
                    run.advance(outcome);
                }
                VaultAction::Restore(change) => {
                    let _ = self.apply(change);
                    run.advance(Ok(()));
                }
                VaultAction::Write => {
                    if self.disk_works {
                        self.written = Some(format!("{document:?}"));
                        run.advance(Ok(()));
                    } else {
                        run.advance(Err(AppError::asset_storage("无法保存连接数据", "disk full")));
                    }
                }
                VaultAction::Finish => {
                    return run.outcome().unwrap();
                }
            }
        }
    }

    fn save(&mut self, request: SaveConnectionRequest) -> Result<ConnectionProfile, AppError> {
        let reads = self.store.begin_save(&request, &KeyFile::File)?;
        let secret = self.read(&reads.reference);
        let proxy_secret = self.read(&reads.proxy_reference);
        let plan = self
            .store
            .save_connection(&request, &reads, secret, proxy_secret)?;
        self.play(plan.run, &plan.document)?;
        self.store = AssetStore::new(plan.document);
        Ok(plan.profile)
    }

    fn delete(&mut self, id: &str) -> Result<(), AppError> {
        let reads = self.store.begin_delete(id)?;
        let secret = self.read(&reads.reference);
        let proxy_secret = self.read(&reads.proxy_reference);
        let plan = self.store.delete_connection(&reads, secret, proxy_secret)?;
        self.play(plan.run, &plan.document)?;
        self.store = AssetStore::new(plan.document);
        Ok(())
    }

    fn request(&self, id: &str) -> Result<ConnectionRequest, AppError> {
        let profiles = self.store.route_profiles(id)?;
        let mut answers = Vec::new();
        for profile in &profiles {
            let (secret, proxy) = credential_lookups(profile, false);
            answers.push(CredentialAnswers {
                secret: self.read(&secret),
                proxy_password: self.read(&proxy),
            });
        }
        self.store.connection_request(id, None, answers)
    }
}

fn request(group_id: &str) -> SaveConnectionRequest {
    SaveConnectionRequest {
        id: None,
        name: "Production".to_owned(),
        host: "server.example".to_owned(),
        port: 22,
        username: "alice".to_owned(),
        auth_type: AuthType::Password,
        secret: Some("must-not-be-in-json".to_owned()),
        remember_credential: true,
        private_key_path: None,
        agent_key_fingerprint: None,
        proxy: None,
        jump_host_ids: Vec::new(),
        group_id: group_id.to_owned(),
        note: Some("primary server".to_owned()),
        timeout_seconds: 15,
    }
}

#[test]
fn connections_survive_reload_without_plaintext_secret() {
    let mut desk = Desk::new();
    let saved = desk.save(request(DEFAULT_GROUP_ID)).unwrap();

    let persisted = desk.written.clone().unwrap();
    assert!(!persisted.contains("must-not-be-in-json"));
    assert!(persisted.contains("TerminalT/connection/"));

    assert_eq!(desk.store.snapshot().connections.len(), 1);
    assert_eq!(
        desk.request(&saved.id).unwrap().password.as_deref(),
        Some("must-not-be-in-json")
    );

    let mut updated = request(DEFAULT_GROUP_ID);
    updated.id = Some(saved.id.clone());
    updated.secret = Some("updated-secret".to_owned());
    desk.save(updated).unwrap();
    assert_eq!(
        desk.request(&saved.id).unwrap().password.as_deref(),
        Some("updated-secret")
    );
    let reference = desk.store.snapshot().connections[0]
        .credential_ref
        .clone()
        .unwrap();
    desk.delete(&saved.id).unwrap();
    assert!(!desk.vault.contains_key(&reference));
}

#[test]
fn copy_gets_new_id_and_no_credential_reference() {
    let mut desk = Desk::new();
    let saved = desk.save(request(DEFAULT_GROUP_ID)).unwrap();
    let copied = desk.store.copy_connection(&saved.id).unwrap();

    assert_ne!(saved.id, copied.id);
    assert!(copied.name.contains("副本"));
    assert!(copied.credential_ref.is_none());
}

#[test]
fn deleting_nonempty_group_migrates_connections_to_default() {
    let mut desk = Desk::new();
    let group = desk
        .store
        .save_group(GroupNameRequest {
            id: None,
            name: "Servers".to_owned(),
        })
        .unwrap();
    desk.save(request(&group.id)).unwrap();
    desk.store.delete_group(&group.id).unwrap();

    let snapshot = desk.store.snapshot();
    assert!(!snapshot.groups.iter().any(|item| item.id == group.id));
    assert_eq!(snapshot.connections[0].group_id, DEFAULT_GROUP_ID);
}

#[test]
fn duplicate_group_names_are_rejected_case_insensitively() {
    let mut desk = Desk::new();
    desk.store
        .save_group(GroupNameRequest {
            id: None,
            name: "Servers".to_owned(),
        })
        .unwrap();
    assert!(desk
        .store
        .save_group(GroupNameRequest {
            id: None,
            name: "servers".to_owned()
        })
        .is_err());
}

#[test]
fn unavailable_vault_never_falls_back_to_plaintext_storage() {
    let mut desk = Desk::new();
    desk.vault_works = false;
    let error = desk.save(request(DEFAULT_GROUP_ID)).unwrap_err();

    assert_eq!(error.code, "CREDENTIAL-STORE-UNAVAILABLE");
    assert!(desk.written.is_none());
    assert!(desk.store.snapshot().connections.is_empty());
}

#[test]
fn failed_write_takes_the_secret_back() {
    let mut desk = Desk::new();
    let saved = desk.save(request(DEFAULT_GROUP_ID)).unwrap();
    desk.disk_works = false;
    let mut updated = request(DEFAULT_GROUP_ID);
    updated.id = Some(saved.id.clone());
    updated.secret = Some("updated-secret".to_owned());
    assert_eq!(desk.save(updated).unwrap_err().code, "ASSET-STORAGE-FAILED");
    assert_eq!(
        desk.request(&saved.id).unwrap().password.as_deref(),
        Some("must-not-be-in-json")
    );
    assert!(desk.save(request(DEFAULT_GROUP_ID)).is_err());
    assert_eq!(desk.vault.len(), 1);
    assert!(desk.delete(&saved.id).is_err());
    assert_eq!(desk.vault.len(), 1);
}

fn content(document: AssetDocument, version: Option<u64>) -> FoundFile {
    FoundFile::Content {
        empty: false,
        document: Ok(document),
        version,
    }
}

fn damaged() -> FoundFile {
    FoundFile::Content {
        empty: false,
        document: Err("expected value at line 1 column 3".to_owned()),
        version: None,
    }
}

#[test]
fn valid_pending_atomic_file_recovers_a_corrupted_primary() {
    let mut desk = Desk::new();
    desk.save(request(DEFAULT_GROUP_ID)).unwrap();
    let (mut valid, _) = desk.store.export_to("connections.json");
    valid.schema_version = 3;

    let LoadState::Pending { fault } = LoadState::primary(damaged(), "now") else {
        panic!("a damaged file was taken in");
    };
    assert_eq!(fault.as_ref().unwrap().code, "ASSET-STORAGE-FAILED");
    let state = LoadState::pending(fault, content(valid, Some(3)), "now");
    assert!(matches!(state, LoadState::Replace { .. }));
    let LoadState::Loaded { outcome } = state.changed(Ok(())) else {
        panic!("the pending file was not taken in");
    };
    let store = AssetStore::new(outcome.unwrap());
    assert_eq!(store.snapshot().connections.len(), 1);
}

#[test]
fn damaged_files_are_reported() {
    let LoadState::Pending { fault } = LoadState::primary(damaged(), "now") else {
        panic!("a damaged file was taken in");
    };
    let LoadState::Loaded { outcome } = LoadState::pending(fault, FoundFile::Missing, "now") else {
        panic!("loading went on");
    };
    let error = outcome.unwrap_err();
    assert_eq!(error.message, "连接数据已损坏，无法安全加载");
    assert_eq!(
        error.technical_details.as_deref(),
        Some("expected value at line 1 column 3")
    );
}

#[test]
fn missing_files_give_an_empty_document() {
    let LoadState::Pending { fault } = LoadState::primary(FoundFile::Missing, "now") else {
        panic!("a missing file was taken in");
    };
    assert!(fault.is_none());
    let LoadState::Loaded { outcome } = LoadState::pending(fault, FoundFile::Missing, "now") else {
        panic!("loading went on");
    };
    let document = outcome.unwrap();
    assert_eq!(document.groups.len(), 1);
    assert_eq!(document.groups[0].id, DEFAULT_GROUP_ID);
    assert_eq!(document.groups[0].name, "默认分组");
}

fn document_of(version: u16) -> AssetDocument {
    AssetDocument {
        schema_version: version,
        groups: Vec::new(),
        connections: Vec::new(),
        recent_targets: Vec::new(),
        tunnels: Vec::new(),
    }
}

#[test]
fn legacy_schemas_migrate_and_restore_the_default_group() {
    for version in [0, 1, 2] {
        let state = LoadState::primary(
            content(document_of(version), Some(u64::from(version))),
            "now",
        );
        let LoadState::WritePrimary { document } = &state else {
            panic!("an old file was not written again");
        };
        assert_eq!(document.schema_version, 3);
        let LoadState::Loaded { outcome } = state.changed(Ok(())) else {
            panic!("loading went on");
        };
        let snapshot = AssetStore::new(outcome.unwrap()).snapshot();
        assert_eq!(snapshot.schema_version, 3);
        assert_eq!(snapshot.groups[0].id, DEFAULT_GROUP_ID);
    }
}

#[test]
fn export_omits_credentials_and_import_regenerates_conflicting_ids() {
    let mut desk = Desk::new();
    desk.save(request(DEFAULT_GROUP_ID)).unwrap();
    let (export, exported) = desk.store.export_to("export.json");
    assert_eq!(exported.connections, 1);
    let content = format!("{export:?}");
    assert!(!content.contains("must-not-be-in-json"));
    assert!(!content.contains("TerminalT/connection/"));
    let summary = desk.store.import_from(export, "export.json", false).unwrap();
    assert_eq!(summary.connections, 1);
    assert_eq!(summary.regenerated_ids, 1);
    assert_eq!(desk.store.snapshot().connections.len(), 2);
}

#[test]
fn imports_are_checked_as_saving_is() {
    let mut desk = Desk::new();
    let first = desk.save(request(DEFAULT_GROUP_ID)).unwrap();
    let mut second_request = request(DEFAULT_GROUP_ID);
    second_request.name = "Second".to_owned();
    second_request.jump_host_ids = vec![first.id.clone()];
    let second = desk.save(second_request).unwrap();
    desk.store
        .save_tunnel(SaveTunnelRequest {
            id: None,
            name: "Web".to_owned(),
            connection_id: first.id.clone(),
            kind: TunnelKind::Dynamic,
            bind_host: "127.0.0.1".to_owned(),
            bind_port: 1080,
            target_host: None,
            target_port: None,
            start_policy: TunnelStartPolicy::WithConnection,
            allow_non_loopback: false,
        })
        .unwrap();
    let (export, _) = desk.store.export_to("export.json");
    let import_with = |allow: bool, change: &dyn Fn(&mut AssetDocument)| {
        let mut document = export.clone();
        change(&mut document);
        let mut other = Desk::new();
        let imported = other.store.import_from(document, "export.json", allow);
        let connections = other.store.snapshot().connections.len();
        let tunnels = other.store.snapshot().tunnels.len();
        match imported {
            Ok(_) => assert_eq!((connections, tunnels), (2, 1)),
            Err(_) => assert_eq!((connections, tunnels), (0, 0)),
        }
        imported.map(|_| ()).map_err(|error| error.code)
    };
    let import = |change: &dyn Fn(&mut AssetDocument)| import_with(false, change);
    assert_eq!(import(&|_| {}), Ok(()));
    assert_eq!(
        import(&|document| document.connections[0].jump_host_ids = vec![second.id.clone()]),
        Err("JUMP-HOST-CYCLE")
    );
    assert_eq!(
        import(&|document| document.connections[0].jump_host_ids = vec!["missing".to_owned()]),
        Err("ASSET-NOT-FOUND")
    );
    assert_eq!(
        import(&|document| document.tunnels[0].bind_host = "0.0.0.0".to_owned()),
        Err("TUNNEL-RISK-CONFIRMATION-REQUIRED")
    );
    assert_eq!(
        import(&|document| document.tunnels[0].kind = TunnelKind::Remote),
        Err("TUNNEL-RISK-CONFIRMATION-REQUIRED")
    );
    assert_eq!(
        import_with(true, &|document| document.tunnels[0].kind = TunnelKind::Remote),
        Ok(())
    );
    assert_eq!(
        import_with(true, &|document| document.tunnels[0].bind_host = "0.0.0.0".to_owned()),
        Ok(())
    );
    assert_eq!(
        import_with(true, &|document| {
            document.connections[0].jump_host_ids = vec![second.id.clone()]
        }),
        Err("JUMP-HOST-CYCLE")
    );
}

#[test]
fn future_import_version_is_rejected_transactionally() {
    let mut desk = Desk::new();
    assert!(desk
        .store
        .import_from(document_of(99), "future.json", false)
        .is_err());
    assert!(desk.store.snapshot().connections.is_empty());
}

#[test]
fn proxy_secret_is_vault_only_and_jump_cycles_are_rejected() {
    let mut desk = Desk::new();
    let first = desk.save(request(DEFAULT_GROUP_ID)).unwrap();
    let mut second_request = request(DEFAULT_GROUP_ID);
    second_request.name = "Jump".to_owned();
    second_request.host = "jump.example".to_owned();
    second_request.proxy = Some(SaveProxyRequest {
        proxy_type: ProxyType::Socks5,
        host: "proxy.example".to_owned(),
        port: 1080,
        username: Some("proxy-user".to_owned()),
        password: Some("proxy-secret".to_owned()),
        remember_credential: true,
    });
    second_request.jump_host_ids = vec![first.id.clone()];
    let second = desk.save(second_request).unwrap();

    assert!(!desk.written.clone().unwrap().contains("proxy-secret"));
    assert_eq!(
        desk.request(&second.id)
            .unwrap()
            .proxy
            .unwrap()
            .password
            .as_deref(),
        Some("proxy-secret")
    );
    assert_eq!(desk.store.route_profiles(&second.id).unwrap().len(), 2);

    let mut cycle = request(DEFAULT_GROUP_ID);
    cycle.id = Some(first.id.clone());
    cycle.jump_host_ids = vec![second.id];
    assert_eq!(desk.save(cycle).unwrap_err().code, "JUMP-HOST-CYCLE");
    assert!(desk.delete(&first.id).is_err());
}

#[test]
fn tunnel_profiles_persist_and_non_loopback_requires_confirmation() {
    let mut desk = Desk::new();
    let connection = desk.save(request(DEFAULT_GROUP_ID)).unwrap();
    let mut tunnel = SaveTunnelRequest {
        id: None,
        name: "Database".to_owned(),
        connection_id: connection.id.clone(),
        kind: TunnelKind::Local,
        bind_host: "0.0.0.0".to_owned(),
        bind_port: 15432,
        target_host: Some("db.internal".to_owned()),
        target_port: Some(5432),
        start_policy: TunnelStartPolicy::Manual,
        allow_non_loopback: false,
    };
    assert_eq!(
        desk.store.save_tunnel(tunnel.clone()).unwrap_err().code,
        "TUNNEL-RISK-CONFIRMATION-REQUIRED"
    );
    tunnel.allow_non_loopback = true;
    let saved = desk.store.save_tunnel(tunnel).unwrap();
    assert_eq!(desk.store.snapshot().tunnels.len(), 1);
    assert!(desk.delete(&connection.id).is_err());
    desk.store.delete_tunnel(&saved.id).unwrap();
    desk.delete(&connection.id).unwrap();
}

#[test]
fn tunnels_of_a_profile_are_copied_and_started_with_the_connection() {
    let mut desk = Desk::new();
    let connection = desk.save(request(DEFAULT_GROUP_ID)).unwrap();
    let saved = desk
        .store
        .save_tunnel(SaveTunnelRequest {
            id: None,
            name: "Web".to_owned(),
            connection_id: connection.id.clone(),
            kind: TunnelKind::Dynamic,
            bind_host: "127.0.0.1".to_owned(),
            bind_port: 1080,
            target_host: None,
            target_port: None,
            start_policy: TunnelStartPolicy::WithConnection,
            allow_non_loopback: false,
        })
        .unwrap();
    assert_eq!(desk.store.automatic_tunnels(&connection.id).len(), 1);
    let copied = desk.store.copy_tunnel(&saved.id).unwrap();
    assert_ne!(copied.id, saved.id);
    assert_eq!(desk.store.tunnel(&saved.id).unwrap().name, "Web");
    assert!(desk.store.tunnel("missing").is_err());
}

#[test]
fn references_name_the_connection() {
    assert_eq!(
        credential_reference("7", AuthType::Password),
        "TerminalT/connection/7/password"
    );
    assert!(proxy_credential_reference("7").contains("7"));
    assert_ne!(
        proxy_credential_reference("7"),
        credential_reference("7", AuthType::Password)
    );
}

#[test]
fn loopback_hosts_are_told_apart() {
    assert!(is_loopback_host("127.0.0.1"));
    assert!(is_loopback_host("127.9.8.7"));
    assert!(is_loopback_host("::1"));
    assert!(is_loopback_host("localhost"));
    assert!(!is_loopback_host("0.0.0.0"));
    assert!(!is_loopback_host("example.com"));
}

#[test]
fn recent_targets_are_masked() {
    let masked = mask_target("alice@server.example:22").unwrap();
    assert!(!masked.contains("server.example"));
    let mut desk = Desk::new();
    desk.store
        .record_recent_target("alice@server.example:22")
        .unwrap();
    assert_eq!(desk.store.snapshot().recent_targets.len(), 1);
    desk.store.clear_recent_targets();
    assert!(desk.store.snapshot().recent_targets.is_empty());
}

#[test]
fn copies_get_a_free_name() {
    let mut desk = Desk::new();
    let saved = desk.save(request(DEFAULT_GROUP_ID)).unwrap();
    let first = desk.store.copy_connection(&saved.id).unwrap();
    let second = desk.store.copy_connection(&saved.id).unwrap();
    assert_ne!(first.name, second.name);
    let taken = desk.store.snapshot().connections;
    let name = duplicate_name("Production", &taken);
    assert!(taken.iter().all(|item| item.name != name));
}

#[test]
fn connecting_is_remembered() {
    let mut desk = Desk::new();
    let saved = desk.save(request(DEFAULT_GROUP_ID)).unwrap();
    assert!(saved.last_connected_at.is_none());
    desk.store.mark_connected(&saved.id).unwrap();
    assert!(desk.store.snapshot().connections[0]
        .last_connected_at
        .is_some());
    assert!(desk.store.mark_connected("missing").is_err());
    let document = desk.store.into_document();
    assert!(document.connections[0].last_connected_at.is_some());
}
