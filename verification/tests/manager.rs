use ignition::apps::{App, AppId};
use ignition::config::{Config, ReadOutcome};
use ignition::idset::IdSet;
use ignition::loader::{
    IconLoader, IconLoaderStatus, IconLocation, LoadCause, LoadFailure, LoadIconTaskRequest,
    LoadIconTaskResponse,
};
use ignition::manager::AppIconManager;
use ignition::model::{IconEntryModel, IconsModel};
use ignition::render::RenderError;

fn id(text: &str) -> AppId {
    AppId(text.to_string())
}

fn app(name: &str, icon: Option<&str>) -> App {
    App {
        id: id(name),
        path: format!("/usr/share/applications/{name}.desktop"),
        name: name.to_string(),
        command: name.to_string(),
        icon: icon.map(|i| i.to_string()),
        comment: None,
        generic_name: None,
        keywords: None,
        categories: None,
        terminal: false,
    }
}

fn entry(source: &str, export_id: Option<usize>) -> IconEntryModel {
    IconEntryModel { source_location: source.to_string(), export_id }
}

fn request(name: &str, slot: usize) -> LoadIconTaskRequest {
    LoadIconTaskRequest {
        id: id(name),
        app_name: name.to_string(),
        icon: name.to_string(),
        location: IconLocation { app_id: id(name), export_id: slot, path: format!("/cache/{slot}.png") },
    }
}

fn manager(entries: Vec<(&str, IconEntryModel)>) -> AppIconManager {
    let mut model = IconsModel::new();
    for (name, e) in entries {
        model.insert(id(name), e);
    }
    AppIconManager::new("/cache/icons".to_string(), model)
}

fn success(request: LoadIconTaskRequest) -> LoadIconTaskResponse {
    request.respond(Ok(()))
}

fn failure(request: LoadIconTaskRequest) -> LoadIconTaskResponse {
    request.respond(Err(LoadFailure::Failed {
        path: "/icons/broken.ico".to_string(),
        cause: LoadCause::Render(RenderError::IcoEmpty),
    }))
}

#[test]
fn id_set_is_a_set() {
    let mut set = IdSet::new();
    assert!(!set.contains(&id("a")));
    set.insert(id("a"));
    set.insert(id("b"));
    set.insert(id("a"));
    assert!(set.contains(&id("a")));
    assert!(set.contains(&id("b")));
    assert_eq!(set.ids.len(), 2);
    set.remove(&id("a"));
    assert!(!set.contains(&id("a")));
    assert!(set.contains(&id("b")));
    set.remove(&id("missing"));
    assert_eq!(set.ids.len(), 1);
}

#[test]
fn model_keeps_one_entry_for_each_application() {
    let mut model = IconsModel::new();
    assert_eq!(model.len(), 0);
    assert!(model.get(&id("a")).is_none());
    model.insert(id("a"), entry("one", Some(0)));
    model.insert(id("b"), entry("two", None));
    model.insert(id("a"), entry("three", Some(4)));
    assert_eq!(model.len(), 2);
    assert_eq!(model.get(&id("a")), Some(&entry("three", Some(4))));
    assert_eq!(model.get(&id("b")), Some(&entry("two", None)));
    assert_eq!(model.position(&id("b")), Some(1));
    assert_eq!(model.remove(&id("a")), Some(entry("three", Some(4))));
    assert_eq!(model.remove(&id("a")), None);
    assert_eq!(model.len(), 1);
    assert_eq!(IconsModel::default().len(), 0);
}

#[test]
fn find_free_id_gives_the_first_gap() {
    let mut model = IconsModel::new();
    assert_eq!(model.find_free_id(), 0);
    model.insert(id("a"), entry("a", Some(0)));
    assert_eq!(model.find_free_id(), 1);
    model.insert(id("b"), entry("b", Some(1)));
    model.insert(id("c"), entry("c", Some(3)));
    model.insert(id("d"), entry("d", None));
    assert_eq!(model.find_free_id(), 2);
    assert!(model.holds_id(3));
    assert!(!model.holds_id(2));
    model.insert(id("e"), entry("e", Some(2)));
    assert_eq!(model.find_free_id(), 4);
    model.remove(&id("a"));
    assert_eq!(model.find_free_id(), 0);
}

#[test]
fn loader_releases_the_oldest_request_first() {
    let mut loader = IconLoader::new();
    assert_eq!(loader.status, IconLoaderStatus::Run);
    for slot in 0..5 {
        loader.enqueue(request("app", slot));
    }
    let batch = loader.tick(2);
    assert_eq!(batch.iter().map(|r| r.location.export_id).collect::<Vec<_>>(), vec![0, 1]);
    assert_eq!(loader.queue.len(), 3);
    assert_eq!(loader.queue[0].location.export_id, 2);
    assert!(loader.tick(0).is_empty());
    let batch = loader.tick(16);
    assert_eq!(batch.iter().map(|r| r.location.export_id).collect::<Vec<_>>(), vec![2, 3, 4]);
    assert!(loader.tick(16).is_empty());
}

#[test]
fn loader_releases_no_more_than_a_batch() {
    let mut loader = IconLoader::new();
    for slot in 0..40 {
        loader.enqueue(request("app", slot));
    }
    let batch = loader.tick(usize::MAX);
    assert_eq!(batch.len(), 32);
    assert_eq!(batch[0].location.export_id, 0);
    assert_eq!(batch[31].location.export_id, 31);
    assert_eq!(loader.queue.len(), 8);
    assert_eq!(loader.queue[0].location.export_id, 32);
    assert_eq!(loader.queue[7].location.export_id, 39);
}

#[test]
fn loader_cancels_what_was_never_sent() {
    let mut loader = IconLoader::new();
    loader.enqueue(request("a", 0));
    loader.enqueue(request("b", 1));
    loader.enqueue(request("c", 2));
    let responses = loader.finish();
    assert_eq!(
        responses,
        vec![
            LoadIconTaskResponse::Fail(LoadFailure::Cancelled, request("a", 0).location),
            LoadIconTaskResponse::Fail(LoadFailure::Cancelled, request("b", 1).location),
            LoadIconTaskResponse::Fail(LoadFailure::Cancelled, request("c", 2).location),
        ]
    );
    assert_eq!(loader.status, IconLoaderStatus::Finished);
    assert!(loader.queue.is_empty());
    // A second shutdown finds nothing, and a finished loader releases nothing.
    assert!(loader.finish().is_empty());
    loader.enqueue(request("d", 3));
    assert!(loader.tick(16).is_empty());
    assert_eq!(loader.finish().len(), 1);
}

#[test]
fn respond_carries_the_slot() {
    assert_eq!(success(request("a", 7)), LoadIconTaskResponse::Success(request("a", 7).location));
    let gone = || LoadFailure::Failed {
        path: "/icons/a.png".to_string(),
        cause: LoadCause::Read("gone".to_string()),
    };
    let failed = request("a", 7).respond(Err(gone()));
    assert_eq!(failed, LoadIconTaskResponse::Fail(gone(), request("a", 7).location));
    assert_eq!(failed.location().export_id, 7);
}

#[test]
fn manager_paths() {
    assert_eq!(AppIconManager::cache_dir("/home/u/.cache/ignition"), "/home/u/.cache/ignition/icons");
    let m = manager(vec![]);
    assert_eq!(m.model_path(), "/cache/icons/icons.json");
    assert_eq!(m.icon_path(0), "/cache/icons/0.png");
    assert_eq!(m.icon_path(1234567890), "/cache/icons/1234567890.png");
}

#[test]
fn prepare_icon_ignores_an_application_without_icon() {
    let mut m = manager(vec![]);
    m.prepare_icon(&app("plain", None));
    assert_eq!(m.to_load(), 0);
    assert!(m.loader.is_none());
    assert!(!m.seen_icons.contains(&id("plain")));
    assert_eq!(m.model.len(), 0);
}

#[test]
fn prepare_icon_queues_a_render_for_a_new_source() {
    let mut m = manager(vec![("old", entry("old-icon", Some(0)))]);
    m.prepare_icon(&app("firefox", Some("firefox")));
    assert_eq!(m.to_load(), 1);
    assert_eq!(m.to_load_finished(), 0);
    assert!(m.seen_icons.contains(&id("firefox")));
    assert_eq!(m.model.get(&id("firefox")), Some(&entry("firefox", Some(1))));
    let queue = &m.loader.as_ref().unwrap().queue;
    assert_eq!(queue.len(), 1);
    assert_eq!(
        queue[0],
        LoadIconTaskRequest {
            id: id("firefox"),
            app_name: "firefox".to_string(),
            icon: "firefox".to_string(),
            location: IconLocation {
                app_id: id("firefox"),
                export_id: 1,
                path: "/cache/icons/1.png".to_string(),
            },
        }
    );
    // The icon is not there before its render has ended.
    assert_eq!(m.read_icon(&id("firefox")), None);
    assert_eq!(m.read_icon(&id("old")), Some("/cache/icons/0.png".to_string()));
}

#[test]
fn prepare_icon_twice_queues_one_render() {
    let mut m = manager(vec![]);
    m.prepare_icon(&app("firefox", Some("firefox")));
    m.prepare_icon(&app("firefox", Some("firefox")));
    assert_eq!(m.to_load(), 1);
    assert_eq!(m.loader.as_ref().unwrap().queue.len(), 1);
    assert_eq!(m.model.len(), 1);
}

#[test]
fn prepare_icon_skips_a_source_that_is_on_record() {
    let mut m = manager(vec![("firefox", entry("firefox", Some(3)))]);
    m.prepare_icon(&app("firefox", Some("firefox")));
    assert_eq!(m.to_load(), 0);
    assert!(m.loader.is_none());
    assert!(m.seen_icons.contains(&id("firefox")));
    assert_eq!(m.read_icon(&id("firefox")), Some("/cache/icons/3.png".to_string()));
}

#[test]
fn prepare_icon_gives_a_changed_source_a_fresh_slot() {
    let mut m = manager(vec![("firefox", entry("firefox", Some(0)))]);
    m.prepare_icon(&app("firefox", Some("firefox-nightly")));
    assert_eq!(m.to_load(), 1);
    assert_eq!(m.model.get(&id("firefox")), Some(&entry("firefox-nightly", Some(1))));
}

#[test]
fn tick_releases_requests_and_takes_in_responses() {
    let mut m = manager(vec![]);
    let (batch, worked) = m.tick(16, &vec![]);
    assert!(batch.is_empty());
    assert!(!worked);

    m.prepare_icon(&app("a", Some("a")));
    m.prepare_icon(&app("b", Some("b")));
    let (mut batch, worked) = m.tick(16, &vec![]);
    assert!(worked);
    assert_eq!(batch.len(), 2);
    // What was asked for first is handed to the worker first.
    assert_eq!(batch[0].id, id("a"));
    assert_eq!(batch[1].id, id("b"));
    let (a, b) = (batch.remove(0), batch.remove(0));

    let (batch, worked) = m.tick(16, &vec![success(a), failure(b)]);
    assert!(batch.is_empty());
    assert!(worked);
    assert_eq!(m.to_load_finished(), 2);
    assert_eq!(m.read_icon(&id("a")), Some("/cache/icons/0.png".to_string()));
    assert_eq!(m.read_icon(&id("b")), None);
    assert_eq!(m.model.get(&id("b")), Some(&entry("b", None)));
    assert!(!m.pending.contains(&id("a")));
    assert!(!m.pending.contains(&id("b")));

    let (_, worked) = m.tick(16, &vec![]);
    assert!(!worked);
}

#[test]
fn tick_keeps_what_the_worker_has_no_room_for() {
    let mut m = manager(vec![]);
    for i in 0..40 {
        m.prepare_icon(&app(&format!("app{i}"), Some("icon")));
    }
    let (batch, _) = m.tick(16, &vec![]);
    assert_eq!(batch.len(), 16);
    let (batch, _) = m.tick(100, &vec![]);
    assert_eq!(batch.len(), 24);
    let (batch, worked) = m.tick(100, &vec![]);
    assert!(batch.is_empty());
    assert!(!worked);
    assert_eq!(m.to_load(), 40);
}

#[test]
fn a_response_that_is_out_of_date_changes_no_record() {
    let mut m = manager(vec![]);
    m.prepare_icon(&app("a", Some("first")));
    let (mut batch, _) = m.tick(16, &vec![]);
    let first = batch.remove(0);
    m.prepare_icon(&app("a", Some("second")));
    assert_eq!(m.model.get(&id("a")), Some(&entry("second", Some(1))));
    // The render of the first source fails after the second was asked for.
    m.handle_response(&failure(first));
    assert_eq!(m.to_load_finished(), 1);
    assert_eq!(m.model.get(&id("a")), Some(&entry("second", Some(1))));
    assert!(m.pending.contains(&id("a")));
    assert_eq!(m.read_icon(&id("a")), None);
    // A response for an application that is not on record.
    m.handle_response(&success(request("ghost", 9)));
    assert_eq!(m.to_load_finished(), 2);
    assert!(m.model.get(&id("ghost")).is_none());
}

#[test]
fn finish_cancels_what_was_never_sent() {
    let mut m = manager(vec![]);
    m.prepare_icon(&app("a", Some("a")));
    m.prepare_icon(&app("b", Some("b")));
    m.prepare_icon(&app("c", Some("c")));
    let (cancelled, removed) = m.finish(&vec![]);
    assert_eq!(cancelled.len(), 3);
    for (response, name) in cancelled.iter().zip(["a", "b", "c"]) {
        match response {
            LoadIconTaskResponse::Fail(LoadFailure::Cancelled, location) => {
                assert_eq!(location.app_id, id(name))
            }
            other => panic!("{other:?}"),
        }
    }
    assert!(removed.is_empty());
    assert_eq!(m.to_load(), 3);
    assert_eq!(m.to_load_finished(), 3);
    assert!(m.loader.is_none());
    for name in ["a", "b", "c"] {
        assert_eq!(m.model.get(&id(name)), Some(&entry(name, None)));
        assert_eq!(m.read_icon(&id(name)), None);
    }
    // A second shutdown has nothing to do.
    let (cancelled, removed) = m.finish(&vec![]);
    assert!(cancelled.is_empty());
    assert!(removed.is_empty());
}

#[test]
fn finish_takes_in_the_last_responses() {
    let mut m = manager(vec![]);
    m.prepare_icon(&app("a", Some("a")));
    let (mut batch, _) = m.tick(16, &vec![]);
    m.prepare_icon(&app("b", Some("b")));
    let (cancelled, removed) = m.finish(&vec![success(batch.remove(0))]);
    assert_eq!(cancelled.len(), 1);
    assert!(removed.is_empty());
    assert_eq!(m.read_icon(&id("a")), Some("/cache/icons/0.png".to_string()));
    assert_eq!(m.read_icon(&id("b")), None);
    assert_eq!(m.to_load_finished(), 2);
}

#[test]
fn save_throws_away_what_was_not_seen() {
    let mut m = manager(vec![
        ("gone", entry("gone", Some(0))),
        ("kept", entry("kept", Some(1))),
        ("gone-without-icon", entry("none", None)),
        ("also-gone", entry("also", Some(5))),
    ]);
    m.prepare_icon(&app("kept", Some("kept")));
    let mut removed = m.save();
    removed.sort();
    assert_eq!(removed, vec![0, 5]);
    assert_eq!(m.model.len(), 1);
    assert_eq!(m.model.get(&id("kept")), Some(&entry("kept", Some(1))));
    assert!(m.model.get(&id("gone")).is_none());
    assert_eq!(m.read_icon(&id("gone")), None);
    assert!(m.save().is_empty());
}

#[test]
fn finish_collects_the_garbage() {
    let mut m = manager(vec![("gone", entry("gone", Some(0))), ("kept", entry("kept", Some(1)))]);
    m.prepare_icon(&app("kept", Some("kept")));
    m.prepare_icon(&app("new", Some("new")));
    let (cancelled, removed) = m.finish(&vec![]);
    assert_eq!(cancelled.len(), 1);
    assert_eq!(removed, vec![0]);
    assert!(m.model.get(&id("gone")).is_none());
    assert_eq!(m.model.get(&id("kept")), Some(&entry("kept", Some(1))));
    assert_eq!(m.model.get(&id("new")), Some(&entry("new", None)));
}

#[test]
fn remove_icon_names_the_slot_to_delete() {
    let mut m = manager(vec![("a", entry("a", Some(2))), ("b", entry("b", None))]);
    assert_eq!(m.remove_icon(&id("a")), Some(2));
    assert_eq!(m.remove_icon(&id("a")), None);
    assert_eq!(m.remove_icon(&id("b")), None);
    assert_eq!(m.model.len(), 0);
}

#[test]
fn clear_icons_throws_every_record_away() {
    let mut m = manager(vec![("a", entry("a", Some(2))), ("b", entry("b", None)), ("c", entry("c", Some(0)))]);
    m.prepare_icon(&app("d", Some("d")));
    let mut removed = m.clear_icons();
    removed.sort();
    assert_eq!(removed, vec![0, 1, 2]);
    assert_eq!(m.model.len(), 0);
    assert!(!m.pending.contains(&id("d")));
    // After clearing, every application gets a fresh slot.
    m.prepare_icon(&app("a", Some("a")));
    assert_eq!(m.model.get(&id("a")), Some(&entry("a", Some(0))));
}

#[test]
fn config_reads_when_first_needed() {
    let mut config: Config<Vec<u32>> = Config::new("/data/uses.json".to_string());
    assert_eq!(config.pending_read(), Some(&"/data/uses.json".to_string()));
    assert!(config.get_mut().is_none());
    assert!(config.flush_changes().is_none());

    config.supply(ReadOutcome::Parsed(vec![1, 2]), vec![]);
    assert_eq!(config.pending_read(), None);
    config.get_mut().unwrap().push(3);
    assert_eq!(config.flush_changes(), Some((&"/data/uses.json".to_string(), &vec![1, 2, 3])));

    // The first value stays.
    config.supply(ReadOutcome::Parsed(vec![9]), vec![]);
    assert_eq!(config.get_mut(), Some(&mut vec![1, 2, 3]));
}

#[test]
fn config_falls_back_where_there_is_no_value() {
    assert_eq!(Config::load_from_file(ReadOutcome::Missing, 7), 7);
    assert_eq!(Config::load_from_file(ReadOutcome::Corrupt, 7), 7);
    assert_eq!(Config::load_from_file(ReadOutcome::Parsed(3), 7), 3);
    // A file that cannot be read is not fatal either.
    assert_eq!(Config::load_from_file(ReadOutcome::Failed("denied".to_string()), 7), 7);
    let mut config: Config<u32> = Config::new("/p".to_string());
    config.supply(ReadOutcome::Missing, 5);
    assert_eq!(config.get_mut(), Some(&mut 5));
    let mut config: Config<u32> = Config::new("/p".to_string());
    config.supply(ReadOutcome::Failed("denied".to_string()), 6);
    assert_eq!(config.pending_read(), None);
    assert_eq!(config.get_mut(), Some(&mut 6));
}

#[test]
fn put_back_keeps_the_order_of_the_queue() {
    let mut m = manager(vec![]);
    for i in 0..5 {
        m.prepare_icon(&app(&format!("app{i}"), Some("icon")));
    }
    let (batch, _) = m.tick(3, &vec![]);
    let names: Vec<String> = batch.iter().map(|r| r.app_name.clone()).collect();
    assert_eq!(names, vec!["app0", "app1", "app2"]);
    // The worker took the first and refused the other two.
    let refused: Vec<LoadIconTaskRequest> = batch.into_iter().skip(1).collect();
    m.put_back(refused);
    let (batch, _) = m.tick(16, &vec![]);
    let names: Vec<String> = batch.iter().map(|r| r.app_name.clone()).collect();
    assert_eq!(names, vec!["app1", "app2", "app3", "app4"]);
    assert_eq!(m.to_load(), 5);
}

#[test]
fn put_back_of_nothing_makes_no_queue() {
    let mut m = manager(vec![]);
    m.put_back(vec![]);
    assert!(m.loader.is_none());
    m.put_back(vec![request("a", 0)]);
    assert_eq!(m.loader.as_ref().unwrap().queue, vec![request("a", 0)]);
    let mut loader = IconLoader::new();
    loader.enqueue(request("late", 2));
    loader.put_back(vec![request("first", 0), request("second", 1)]);
    assert_eq!(loader.queue, vec![request("first", 0), request("second", 1), request("late", 2)]);
}

#[test]
fn the_counts_stop_at_the_largest_number() {
    let mut m = manager(vec![]);
    m.to_load = usize::MAX - 1;
    m.to_load_finished = usize::MAX - 1;
    m.prepare_icon(&app("a", Some("a")));
    assert_eq!(m.to_load(), usize::MAX);
    m.prepare_icon(&app("b", Some("b")));
    assert_eq!(m.to_load(), usize::MAX);
    assert_eq!(m.loader.as_ref().unwrap().queue.len(), 2);
    let (batch, _) = m.tick(16, &vec![]);
    let responses: Vec<LoadIconTaskResponse> = batch.into_iter().map(success).collect();
    m.tick(16, &responses);
    assert_eq!(m.to_load_finished(), usize::MAX);
    assert_eq!(m.model.get(&id("a")), Some(&entry("a", Some(0))));
    assert_eq!(m.model.get(&id("b")), Some(&entry("b", Some(1))));
}
