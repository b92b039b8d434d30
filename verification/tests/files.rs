use vector::config::disk::{check_buffer_preconditions, find_mountpoint, DiskUsage, Mountpoint, PlacedBuffer};
use vector::config::loading::{
    find_provider, finalize_config, load_from_inputs, load_from_paths, load_from_str,
    loader_from_paths, prepare_input, Bootstrap,
};
use vector::config::paths::{
    component_name, component_name_from, default_config_paths, default_path, merge_path_lists,
    process_paths, starting_paths, ConfigPath, Format,
};
use vector::config::source::Duration;
use vector::config::vars::interpolate;
use vector::config::watcher::{
    reload_signal, retry_timeout, watch_delay, watch_step, watched_paths, ComponentConfig,
    ComponentType, EventKind, SignalTo, WatchAction, WatchInput, WatchState,
};
use vector::config::{Config, ConfigBuilder};
use vector::id::ComponentKey;

fn strings(list: &[&str]) -> Vec<String> {
    let mut all = Vec::new();
    for item in list {
        all.push(item.to_string());
    }
    all
}

fn vars(list: &[(&str, &str)]) -> Vec<(String, String)> {
    let mut all = Vec::new();
    for (name, value) in list {
        all.push((name.to_string(), value.to_string()));
    }
    all
}

fn paths(list: &Vec<ConfigPath>) -> Vec<&str> {
    let mut all = Vec::new();
    for path in list {
        all.push(path.as_path());
    }
    all
}

fn file(path: &str) -> ConfigPath {
    ConfigPath::File(path.to_string(), None)
}

fn component(key: &str, kind: ComponentType, files: &[&str]) -> ComponentConfig {
    ComponentConfig {
        config_paths: strings(files),
        component_key: ComponentKey::new(key),
        component_type: kind,
    }
}

#[test]
fn variables_are_replaced() {
    let known = vars(&[("HOST", "example.com"), ("EMPTY", "")]);
    let value = |input: &str| interpolate(input, &known);
    assert_eq!(value("a ${HOST}:80").unwrap(), "a example.com:80");
    assert_eq!(value("$HOST").unwrap(), "$HOST");
    assert_eq!(value("${PORT:-80}").unwrap(), "80");
    assert_eq!(value("${EMPTY:-80}").unwrap(), "80");
    assert_eq!(value("${HOST:?needed}").unwrap(), "example.com");
    assert_eq!(value("${HOST").unwrap(), "${HOST");
    assert_eq!(value("no references {}").unwrap(), "no references {}");
    assert_eq!(value("").unwrap(), "");
}

#[test]
fn missing_variables_are_errors() {
    let known = vars(&[("EMPTY", "")]);
    assert_eq!(
        interpolate("${NOWHERE}", &known).unwrap_err(),
        ["Missing environment variable in config. name = \"NOWHERE\""]
    );
    assert_eq!(
        interpolate("${NOWHERE:?is needed} ${EMPTY:?too}", &known).unwrap_err(),
        [
            "Non-empty environment variable required in config. name = \"NOWHERE\", error = \"is needed\"",
            "Non-empty environment variable required in config. name = \"EMPTY\", error = \"too\"",
        ]
    );
}

#[test]
fn input_is_prepared() {
    let source = || "${HOSTNAME}".to_string();
    assert_eq!(prepare_input(source(), false, Vec::new(), None).unwrap(), "${HOSTNAME}");
    assert_eq!(
        prepare_input(source(), true, Vec::new(), Some("machine".to_string())).unwrap(),
        "machine"
    );
    assert_eq!(
        prepare_input(source(), true, vars(&[("HOSTNAME", "mine")]), Some("machine".to_string()))
            .unwrap(),
        "mine"
    );
    assert!(prepare_input(source(), true, Vec::new(), None).is_err());
}

#[test]
fn names_come_from_paths() {
    assert_eq!(component_name("/etc/vector/sources/in.yaml").unwrap(), "in");
    assert_eq!(component_name("archive.tar.gz").unwrap(), "archive.tar");
    assert_eq!(
        component_name("/").unwrap_err(),
        ["Couldn't get component name for file: \"/\""]
    );
    assert_eq!(component_name_from("x", Some("y".to_string())).unwrap(), "y");
    assert!(component_name_from("x", None).is_err());
}

#[test]
fn formats_come_from_paths() {
    assert_eq!(Format::for_path("a.toml", None), Format::Toml);
    assert_eq!(Format::for_path("a.yaml", None), Format::Yaml);
    assert_eq!(Format::for_path("a.yml", None), Format::Yaml);
    assert_eq!(Format::for_path("a.json", None), Format::Json);
    assert_eq!(Format::for_path("a.json", Some(Format::Toml)), Format::Toml);
    assert_eq!(Format::from_extension(&Some("txt".to_string())), None);
    assert_eq!(Format::from_extension(&None), None);
}

#[test]
fn path_lists_are_merged() {
    let merged = merge_path_lists(vec![
        (strings(&["a", "b"]), Some(Format::Toml)),
        (strings(&["c"]), None),
    ]);
    assert_eq!(
        merged,
        [
            ("a".to_string(), Some(Format::Toml)),
            ("b".to_string(), Some(Format::Toml)),
            ("c".to_string(), None),
        ]
    );
}

#[test]
fn paths_are_sorted_without_repetition() {
    let starting = vec![file("*"), ConfigPath::Dir("d".to_string()), file("b")];
    let matches = vec![Some(strings(&["c", "b"])), Some(strings(&["d"])), Some(strings(&["b"]))];
    let found = process_paths(&starting, &matches).unwrap();
    assert_eq!(paths(&found), ["b", "c", "d"]);
    assert!(matches!(found[2], ConfigPath::Dir(_)));
}

#[test]
fn paths_must_lead_somewhere() {
    let starting = vec![file("*"), file("x")];
    assert!(process_paths(&starting, &vec![Some(strings(&["a"])), None]).is_none());
    assert!(process_paths(&starting, &vec![Some(strings(&["a"])), Some(Vec::new())]).is_none());
}

#[test]
fn paths_are_sorted_by_their_parts() {
    let sorted = |list: &[&str]| {
        let found = process_paths(&vec![file("*")], &vec![Some(strings(list))]).unwrap();
        let mut texts = Vec::new();
        for path in &found {
            texts.push(path.as_path().to_string());
        }
        let mut reference = Vec::new();
        for text in list {
            reference.push(std::path::PathBuf::from(text));
        }
        reference.sort();
        reference.dedup();
        let mut expected = Vec::new();
        for path in &reference {
            expected.push(path.to_str().unwrap().to_string());
        }
        assert_eq!(texts, expected);
        texts
    };
    assert_eq!(sorted(&["(a).yaml", ".."]), ["..", "(a).yaml"]);
    assert_eq!(sorted(&["a//b", "a/b"]), ["a//b"]);
    assert_eq!(sorted(&["a/b", "a//b"]), ["a/b"]);
    assert_eq!(sorted(&["a-b", "a/b", "a"]), ["a", "a/b", "a-b"]);
    assert_eq!(sorted(&["./a", "a", "/a", "../a"]), ["/a", "./a", "../a", "a"]);
    assert_eq!(sorted(&["a/./b/", "a/b", "/./x", "/x", "."]), ["/./x", ".", "a/./b/"]);
    assert_eq!(sorted(&["", "x", "//x", "a/../x", "a/.x"]).len(), 5);
}

#[test]
fn default_paths_are_used() {
    assert_eq!(paths(&starting_paths(&Vec::new(), &None)), ["/etc/vector/vector.yaml"]);
    assert_eq!(paths(&starting_paths(&vec![file("mine")], &None)), ["mine"]);
    assert!(matches!(&default_config_paths(&None)[0], ConfigPath::File(_, Some(Format::Yaml))));
    let programs = Some("C:\\Program Files".to_string());
    assert_eq!(default_path(&programs), "C:\\Program Files\\Vector\\config\\vector.yaml");
}

#[test]
fn loading_collects_all_errors() {
    let outcomes = vec![Err(strings(&["a", "b"])), Ok(()), Err(strings(&["c"]))];
    assert_eq!(loader_from_paths(outcomes, 1).unwrap_err(), ["a", "b", "c"]);
    assert_eq!(loader_from_paths(vec![Ok(()), Ok(())], 1).unwrap(), 1);
}

#[test]
fn inputs_are_joined() {
    let named = |name: &str| {
        let mut builder = ConfigBuilder::default();
        builder.secret.insert(name, "{}".to_string());
        Ok(builder)
    };
    let joined = match load_from_inputs(vec![named("a"), named("b")]) {
        Ok(builder) => builder,
        Err(_) => panic!("no errors"),
    };
    assert_eq!(joined.secret.len(), 2);
    let errors = match load_from_inputs(vec![named("a"), Err(strings(&["bad"])), named("a")]) {
        Ok(_) => panic!("errors"),
        Err(errors) => errors,
    };
    assert_eq!(errors, ["bad", "duplicate secret id found: a"]);
}

#[test]
fn loaded_configurations_are_built() {
    let failed = |result: Result<Config, Vec<String>>| match result {
        Ok(_) => panic!("errors"),
        Err(errors) => errors,
    };
    let empty = ["No sources defined in the config.", "No sinks defined in the config."];
    assert_eq!(failed(load_from_str(Ok(ConfigBuilder::default()))), empty);
    assert_eq!(failed(load_from_str(Err(strings(&["bad"])))), ["bad"]);
    assert_eq!(failed(load_from_paths(Ok(ConfigBuilder::default()))), empty);
    assert_eq!(failed(load_from_paths(Err(strings(&["bad"])))), ["bad"]);
    let mut allowed = ConfigBuilder::default();
    allowed.allow_empty = true;
    assert!(load_from_paths(Ok(allowed)).is_ok());
}

#[test]
fn providers_replace_what_was_loaded() {
    assert!(matches!(find_provider(Ok(ConfigBuilder::default())), Ok(Bootstrap::Local(_))));
    let mut builder = ConfigBuilder::default();
    builder.provider = Some("http".to_string());
    assert!(matches!(
        find_provider(Ok(builder)),
        Ok(Bootstrap::Remote(provider, _)) if provider == "http"
    ));
    assert!(matches!(find_provider(Err(strings(&["bad"]))), Err(errors) if errors == ["bad"]));
}

fn mountpoint(components: &[&str], capacity: u64) -> Mountpoint {
    Mountpoint {
        components: strings(components),
        text: format!("/{}", components[1..].join("/")),
        capacity,
    }
}

fn buffer(id: &str, components: &[&str], max_size: u64) -> PlacedBuffer {
    let usage = DiskUsage { id: ComponentKey::new(id), data_dir: "d".to_string(), max_size };
    PlacedBuffer { usage, components: strings(components) }
}

#[test]
fn buffers_lie_on_the_deepest_mountpoint() {
    let known = vec![mountpoint(&["/"], 10), mountpoint(&["/", "data"], 20)];
    assert_eq!(find_mountpoint(&known, &strings(&["/", "data", "x"])), Some(1));
    assert_eq!(find_mountpoint(&known, &strings(&["/", "database"])), Some(0));
    assert_eq!(find_mountpoint(&vec![], &strings(&["/"])), None);
}

#[test]
fn buffers_must_fit() {
    let known = Some(vec![mountpoint(&["/"], 10), mountpoint(&["/", "data"], 20)]);
    let buffers = vec![
        buffer("a", &["/", "data", "a"], 15),
        buffer("b", &["/", "data", "b"], 5),
        buffer("c", &["/", "c"], 10),
    ];
    assert!(check_buffer_preconditions(&buffers, &known).is_ok());
    let buffers = vec![buffer("a", &["/", "data", "a"], 15), buffer("b", &["/", "data", "b"], 6)];
    let errors = check_buffer_preconditions(&buffers, &known).unwrap_err();
    assert_eq!(errors.len(), 1);
    assert!(errors[0].contains("/data"));
    assert!(errors[0].contains("21"));
    assert!(check_buffer_preconditions(&buffers, &None).is_ok());
    assert!(finalize_config(Config::default(), &buffers, &None).is_ok());
    assert!(finalize_config(Config::default(), &buffers, &known).is_err());
}

#[test]
fn one_directory_may_be_listed_twice() {
    let mut first = mountpoint(&["/", "data"], 10);
    first.text = "/data/".to_string();
    let known = Some(vec![first, mountpoint(&["/"], 5), mountpoint(&["/", "data"], 20)]);
    assert!(check_buffer_preconditions(&vec![buffer("a", &["/", "data", "a"], 20)], &known).is_ok());
    let buffers = vec![buffer("a", &["/", "data", "a"], 21)];
    let errors = check_buffer_preconditions(&buffers, &known).unwrap_err();
    assert_eq!(errors.len(), 1);
    assert!(errors[0].contains("'/data/'"), "{}", errors[0]);
    assert!(errors[0].contains("20"), "{}", errors[0]);
}

#[test]
fn reloads_take_in_what_changed() {
    let configs = vec![
        component("http", ComponentType::Sink, &["/cert", "/key"]),
        component("geo", ComponentType::EnrichmentTable, &["/geo"]),
    ];
    let signal = |changed: &[&str]| reload_signal(&configs, &strings(changed));
    assert!(matches!(signal(&["/other"]), SignalTo::ReloadFromDisk));
    assert!(matches!(signal(&["/geo"]), SignalTo::ReloadEnrichmentTables));
    match signal(&["/cert", "/key"]) {
        SignalTo::ReloadComponents(keys) => {
            assert_eq!(keys.keys().len(), 1);
            assert_eq!(keys.keys()[0].id(), "http");
        }
        _ => panic!("components"),
    }
    match signal(&["/geo", "/key"]) {
        SignalTo::ReloadComponents(keys) => assert_eq!(keys.keys().len(), 2),
        _ => panic!("components"),
    }
    assert_eq!(watched_paths(strings(&["/a"]), &configs), ["/a", "/cert", "/key", "/geo"]);
}

#[test]
fn component_files_are_found() {
    let config = component("http", ComponentType::Sink, &["/cert"]);
    let (key, kind) = config.contains(&strings(&["/x", "/cert"])).unwrap();
    assert_eq!(key.id(), "http");
    assert_eq!(kind, ComponentType::Sink);
    assert!(config.contains(&strings(&["/x"])).is_none());
}

#[test]
fn changes_are_collected_before_a_reload() {
    let configs = Vec::new();
    let change = |path: &str| WatchInput::Event(EventKind::Modify, strings(&[path]));
    let (state, action) = watch_step(WatchState::Waiting, change("/a"), &configs);
    assert!(matches!(action, WatchAction::ReceiveInTime));
    let (state, action) = watch_step(state, WatchInput::Event(EventKind::Other, strings(&["/x"])), &configs);
    assert!(matches!(action, WatchAction::ReceiveInTime));
    let (state, action) = watch_step(state, change("/b"), &configs);
    assert!(matches!(action, WatchAction::ReceiveInTime));
    let (state, action) = watch_step(state, WatchInput::NoEvent, &configs);
    assert!(matches!(action, WatchAction::AddPaths));
    assert!(matches!(&state, WatchState::Registering(changed) if *changed == strings(&["/a", "/b"])));
    let (state, action) = watch_step(state, WatchInput::Done, &configs);
    assert!(matches!(state, WatchState::Waiting));
    assert!(matches!(action, WatchAction::Send(SignalTo::ReloadFromDisk)));
}

#[test]
fn reading_a_file_changes_nothing() {
    let input = WatchInput::Event(EventKind::Other, strings(&["/a"]));
    let (state, action) = watch_step(WatchState::Waiting, input, &Vec::new());
    assert!(matches!(state, WatchState::Waiting));
    assert!(matches!(action, WatchAction::Receive));
}

#[test]
fn watching_is_taken_up_again() {
    let configs = Vec::new();
    let (state, action) = watch_step(WatchState::Waiting, WatchInput::NoEvent, &configs);
    assert!(matches!(action, WatchAction::Sleep));
    let (state, action) = watch_step(state, WatchInput::Done, &configs);
    assert!(matches!(action, WatchAction::CreateWatcher));
    let (state, action) = watch_step(state, WatchInput::Failed, &configs);
    assert!(matches!(action, WatchAction::Sleep));
    let (state, _) = watch_step(state, WatchInput::Done, &configs);
    let (state, action) = watch_step(state, WatchInput::Done, &configs);
    assert!(matches!(state, WatchState::Waiting));
    assert!(matches!(action, WatchAction::Send(SignalTo::ReloadFromDisk)));
}

#[test]
fn delays_have_defaults() {
    assert_eq!(watch_delay(None), Duration::from_secs(1));
    assert_eq!(watch_delay(Some(Duration::from_secs(3))), Duration::from_secs(3));
    assert_eq!(retry_timeout(), Duration::from_secs(10));
}
