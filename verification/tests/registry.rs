use tc_otel::protocol::{RegistrationKey, TaskMetadata};
use tc_otel::registry::TaskRegistry;

#[test]
fn test_register_and_lookup() {
    let mut registry = TaskRegistry::new();
    let key = RegistrationKey {
        ams_net_id: "5.80.201.232.1.1".to_string(),
        ams_source_port: 851,
        task_index: 0,
    };
    let metadata = TaskMetadata {
        task_name: "MyTask".to_string(),
        app_name: "MyApp".to_string(),
        project_name: "MyProject".to_string(),
        online_change_count: 42,
        app_port: 851,
    };

    registry.register(key.clone(), metadata.clone());
    let found = registry.lookup(&key);

    assert!(found.is_some());
    let found = found.unwrap();
    assert_eq!(found.task_name, "MyTask");
    assert_eq!(found.app_name, "MyApp");
    assert_eq!(found.project_name, "MyProject");
    assert_eq!(found.online_change_count, 42);
}

#[test]
fn test_update_existing() {
    let mut registry = TaskRegistry::new();
    let key = RegistrationKey {
        ams_net_id: "5.80.201.232.1.1".to_string(),
        ams_source_port: 851,
        task_index: 1,
    };
    let metadata1 = TaskMetadata {
        task_name: "Task1".to_string(),
        app_name: "App1".to_string(),
        project_name: "Project1".to_string(),
        online_change_count: 1,
        app_port: 851,
    };
    let metadata2 = TaskMetadata {
        task_name: "Task1".to_string(),
        app_name: "App1".to_string(),
        project_name: "Project1".to_string(),
        online_change_count: 2,
        app_port: 851,
    };

    registry.register(key.clone(), metadata1);
    registry.register(key.clone(), metadata2);

    let found = registry.lookup(&key).unwrap();
    assert_eq!(found.online_change_count, 2);
}

#[test]
fn test_lookup_nonexistent() {
    let registry = TaskRegistry::new();
    let key = RegistrationKey {
        ams_net_id: "5.80.201.232.1.1".to_string(),
        ams_source_port: 851,
        task_index: 99,
    };

    assert!(registry.lookup(&key).is_none());
}

#[test]
fn test_len_and_clear() {
    let mut registry = TaskRegistry::new();
    let key1 = RegistrationKey {
        ams_net_id: "5.80.201.232.1.1".to_string(),
        ams_source_port: 851,
        task_index: 0,
    };
    let key2 = RegistrationKey {
        ams_net_id: "5.80.201.232.1.1".to_string(),
        ams_source_port: 851,
        task_index: 1,
    };
    let metadata = TaskMetadata {
        task_name: "Task".to_string(),
        app_name: "App".to_string(),
        project_name: "Project".to_string(),
        online_change_count: 0,
        app_port: 851,
    };

    registry.register(key1, metadata.clone());
    registry.register(key2, metadata);

    assert_eq!(registry.len(), 2);
    assert!(!registry.is_empty());

    registry.clear();
    assert_eq!(registry.len(), 0);
    assert!(registry.is_empty());
}

fn registered() -> TaskRegistry {
    let mut registry = TaskRegistry::new();
    for (net, port, task) in [("1.1.1.1.1.1", 851u16, 1u8), ("1.1.1.1.1.1", 852, 1), ("2.2.2.2.1.1", 851, 3)] {
        registry.register(
            RegistrationKey { ams_net_id: net.to_string(), ams_source_port: port, task_index: task },
            TaskMetadata {
                task_name: format!("{}:{}:{}", net, port, task),
                app_name: String::new(),
                project_name: String::new(),
                online_change_count: 0,
                app_port: port,
            },
        );
    }
    registry
}

#[test]
fn partial_lookups() {
    let registry = registered();
    let (_, m) = registry.lookup_partial("1.1.1.1.1.1", Some(852), None).unwrap();
    assert_eq!(m.task_name, "1.1.1.1.1.1:852:1");
    let (_, m) = registry.lookup_by_task("2.2.2.2.1.1", 3).unwrap();
    assert_eq!(m.app_port, 851);
    assert!(registry.lookup_by_task("2.2.2.2.1.1", 1).is_none());
    assert!(registry.lookup_partial("1.1.1.1.1.1", Some(853), None).is_none());
}

#[test]
fn all_tasks_are_listed_once() {
    let tasks = registered().all_tasks();
    assert_eq!(tasks.len(), 3);
    let mut names: Vec<&str> = tasks.iter().map(|(_, m)| m.task_name.as_str()).collect();
    names.sort();
    assert_eq!(names, vec!["1.1.1.1.1.1:851:1", "1.1.1.1.1.1:852:1", "2.2.2.2.1.1:851:3"]);
}
