use poodle::HotSwapError;
use poodle::common_service::parse_jps_str;
use poodle::confit_utils::get_class_full_path;
use poodle::confit_utils::get_config_path;
use poodle::hot_swap::compose_hot_update_command;
use poodle::hot_swap::plan_hot_update;
use poodle::hot_swap::remote_class_path;
use poodle::hot_swap::select_artifact;
use poodle::jar_utils::ClassInfoDTO;
use poodle::ssh_utils::SessionEvent;
use poodle::ssh_utils::SessionState;
use poodle::ssh_utils::UPLOAD_CHUNK_SIZE;
use poodle::ssh_utils::record_chunk;
use poodle::ssh_utils::session_step;
use poodle::ssh_utils::upload_begin;
use poodle::ssh_utils::upload_finish;

#[test]
fn session_happy_path() {
    let (s, e) = session_step(SessionState::Unconnected, SessionEvent::TransportReady);
    assert_eq!(s, SessionState::Connected);
    assert!(e.is_none());
    let (s, e) = session_step(s, SessionEvent::AuthAccepted);
    assert_eq!(s, SessionState::Authenticated);
    assert!(e.is_none());
    let (s, e) = session_step(s, SessionEvent::OperationStarted);
    assert_eq!(s, SessionState::Active);
    assert!(e.is_none());
    let (s, e) = session_step(s, SessionEvent::OperationFinished);
    assert_eq!(s, SessionState::Authenticated);
    assert!(e.is_none());
}

#[test]
fn session_failures_are_terminal() {
    let (s, e) = session_step(SessionState::Unconnected, SessionEvent::TransportFailed);
    assert_eq!(s, SessionState::Failed);
    assert_eq!(e, Some(HotSwapError::ConnectionError));

    let (s2, e2) = session_step(SessionState::Connected, SessionEvent::AuthRejected);
    assert_eq!(s2, SessionState::Failed);
    assert_eq!(e2, Some(HotSwapError::AuthenticationError));

    let (s3, e3) = session_step(s, SessionEvent::OperationStarted);
    assert_eq!(s3, SessionState::Failed);
    assert_eq!(e3, Some(HotSwapError::SessionClosedError));
}

#[test]
fn upload_of_exact_size_is_complete() {
    let size: u64 = 2 * UPLOAD_CHUNK_SIZE as u64 + 4464;
    let mut t = upload_begin(size);
    record_chunk(&mut t, UPLOAD_CHUNK_SIZE as u64);
    record_chunk(&mut t, UPLOAD_CHUNK_SIZE as u64);
    record_chunk(&mut t, 4464);
    assert_eq!(upload_finish(&t), Ok(()));
}

#[test]
fn truncated_upload_is_incomplete() {
    let size: u64 = 70000;
    let mut t = upload_begin(size);
    record_chunk(&mut t, 32768);
    record_chunk(&mut t, 32768);
    record_chunk(&mut t, 4463);
    assert_eq!(upload_finish(&t), Err(HotSwapError::TransferIncompleteError));
}

fn info(name: &str) -> ClassInfoDTO {
    ClassInfoDTO {
        parent_jar_file_name: String::from("outer.jar"),
        jar_file_name: String::from("outer.jar"),
        class_file_name: String::from(name),
        class_file_path: format!("outer.jar/{}", name),
        java_process_list_str: String::new(),
    }
}

#[test]
fn zero_matches_blocks_deployment() {
    let matches: Vec<ClassInfoDTO> = Vec::new();
    let mut transport_log: Vec<String> = Vec::new();
    let chosen = select_artifact(&matches);
    assert_eq!(chosen, Err(HotSwapError::ArtifactNotFoundError));
    if let Ok(name) = chosen {
        transport_log.push(format!("upload {}", name));
        transport_log.push(String::from("execute"));
    }
    assert!(transport_log.is_empty());
}

#[test]
fn last_match_wins() {
    let matches = vec![info("Bar.class"), info("BarBar.class")];
    assert_eq!(select_artifact(&matches), Ok(String::from("BarBar.class")));
}

#[test]
fn composed_command_is_exact() {
    let cmd = compose_hot_update_command("/root/poodle/Bar.class", "12345");
    assert_eq!(
        cmd,
        "echo -e 'redefine /root/poodle/Bar.class\nstop' | java -jar /root/arthas/arthas-boot.jar 12345"
    );
}

#[test]
fn deployment_plan_paths() {
    let p = plan_hot_update("Bar.class", "12345", "/opt/poodle");
    assert_eq!(p.local_class_path, "/opt/poodle/data/Bar.class");
    assert_eq!(p.remote_class_path, "/root/poodle/Bar.class");
    assert_eq!(
        p.command,
        "echo -e 'redefine /root/poodle/Bar.class\nstop' | java -jar /root/arthas/arthas-boot.jar 12345"
    );
    assert_eq!(remote_class_path("X.class"), "/root/poodle/X.class");
}

#[test]
fn config_derived_paths() {
    assert_eq!(get_config_path("/opt/poodle"), "/opt/poodle/config.json");
    assert_eq!(get_config_path(""), "config.json");
    assert_eq!(get_class_full_path("", "Bar.class"), "data/Bar.class");
}

#[test]
fn jps_rows_are_filtered_and_ordered() {
    let out = parse_jps_str("1234 MyApp\n5678 Jps\n  9999\tOther extra columns\n\nbadline\n");
    let rows: Vec<(&str, &str)> = out
        .iter()
        .map(|p| (p.java_pid.as_str(), p.java_name.as_str()))
        .collect();
    assert_eq!(rows, vec![("1234", "MyApp"), ("9999", "Other")]);
}

#[test]
fn jps_empty_input_gives_no_rows() {
    assert!(parse_jps_str("").is_empty());
    assert!(parse_jps_str("5678 Jps").is_empty());
}
