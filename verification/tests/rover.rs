use rover::downloader::DatasetDownloader;
use rover::errors::RoverError;
use rover::roverfile::{format_entry, max_name_width, Dataset, Roverfile};

fn ds(filename: &str, description: &str, url: &str) -> Dataset {
    Dataset {
        filename: filename.to_string(),
        description: description.to_string(),
        url: url.to_string(),
    }
}

fn sample() -> Roverfile {
    Roverfile::new(
        "roverfile".to_string(),
        Some("Jane Doe".to_string()),
        vec![
            (
                "wine".to_string(),
                ds("wine.csv", "Wine quality dataset", "https://example.org/wine.csv"),
            ),
            (
                "iris".to_string(),
                ds(
                    "iris.csv",
                    "Fisher's iris flower dataset",
                    "https://example.org/iris.csv",
                ),
            ),
            (
                "abalone".to_string(),
                ds("abalone.csv", "Abalone age dataset", "https://example.org/abalone.csv"),
            ),
        ],
    )
    .unwrap()
}

fn request(names: &[&str]) -> Vec<String> {
    names.iter().map(|n| n.to_string()).collect()
}

/// Drive a whole batch, pretending every fetch succeeds; returns the
/// filenames fetched, in order.
fn drive_all(plan: &mut rover::downloader::FetchPlan) -> Vec<String> {
    let mut fetched = Vec::new();
    loop {
        let filename = match plan.next_dataset() {
            Some(d) => d.filename.clone(),
            None => break,
        };
        fetched.push(filename);
        plan.record_success();
    }
    fetched
}

#[test]
fn resolves_in_request_order_with_repeats() {
    let rf = sample();
    let names = request(&["iris", "wine", "iris"]);
    let dd = DatasetDownloader::new(&rf, &names);
    let mut plan = dd.execute().unwrap();
    let fetched = drive_all(&mut plan);
    assert_eq!(fetched, vec!["iris.csv", "wine.csv", "iris.csv"]);
    assert!(plan.completed());
}

#[test]
fn reports_exactly_the_missing_names() {
    let rf = sample();
    let names = request(&["iris", "banana", "wine", "durian", "banana"]);
    let dd = DatasetDownloader::new(&rf, &names);
    let err = dd.execute().err().unwrap();
    match err {
        RoverError::UnknownDatasets(missing) => {
            assert_eq!(missing, vec!["banana", "durian", "banana"]);
        }
        _ => panic!("expected UnknownDatasets"),
    }
}

#[test]
fn unknown_datasets_message_lists_names() {
    let rf = sample();
    let names = request(&["banana", "durian"]);
    let dd = DatasetDownloader::new(&rf, &names);
    let err = dd.execute().err().unwrap();
    assert_eq!(
        err.message(),
        "Unknown dataset(s) encountered: banana durian "
    );
}

#[test]
fn empty_request_resolves_to_empty_batch() {
    let rf = sample();
    let names: Vec<String> = Vec::new();
    let dd = DatasetDownloader::new(&rf, &names);
    let mut plan = dd.execute().unwrap();
    assert!(plan.next_dataset().is_none());
    assert!(plan.completed());
    let fetched = drive_all(&mut plan);
    assert_eq!(fetched.len(), 0);
}

#[test]
fn no_fetch_offered_when_resolution_fails() {
    let rf = sample();
    let names = request(&["iris", "banana"]);
    let dd = DatasetDownloader::new(&rf, &names);
    let mut fetch_calls = 0;
    match dd.execute() {
        Ok(mut plan) => {
            // Would fetch here; resolution must not reach this arm.
            while plan.next_dataset().is_some() {
                fetch_calls += 1;
                plan.record_success();
            }
        }
        Err(e) => {
            assert!(matches!(e, RoverError::UnknownDatasets(_)));
        }
    }
    assert_eq!(fetch_calls, 0);
}

#[test]
fn first_fetch_failure_aborts_the_batch() {
    let rf = sample();
    let names = request(&["iris", "wine", "abalone"]);
    let dd = DatasetDownloader::new(&rf, &names);
    let mut plan = dd.execute().unwrap();
    let mut successes = 0;
    let mut attempts = 0;
    while let Some(_d) = plan.next_dataset() {
        attempts += 1;
        if attempts == 2 {
            plan.record_failure();
        } else {
            plan.record_success();
            successes += 1;
        }
    }
    assert_eq!(attempts, 2);
    assert_eq!(successes, 1);
    assert!(!plan.completed());
}

#[test]
fn roundtrip_through_manifest_text() {
    let text = "author = \"Jane Doe\"\n\n[datasets.a]\nfilename = \"a.csv\"\ndescription = \"d\"\nurl = \"u\"\n";
    let table: toml::Table = toml::from_str(text).unwrap();
    let author = table
        .get("author")
        .and_then(|v| v.as_str())
        .map(|s| s.to_string());
    let mut entries = Vec::new();
    let datasets = table.get("datasets").unwrap().as_table().unwrap();
    for (name, value) in datasets.iter() {
        let t = value.as_table().unwrap();
        let get = |k: &str| t.get(k).unwrap().as_str().unwrap().to_string();
        entries.push((
            name.clone(),
            Dataset {
                filename: get("filename"),
                description: get("description"),
                url: get("url"),
            },
        ));
    }
    let rf = Roverfile::new("roverfile".to_string(), author, entries).unwrap();
    let d = rf.get_dataset("a").unwrap();
    assert_eq!(d.filename, "a.csv");
    assert_eq!(d.description, "d");
    assert_eq!(d.url, "u");
    assert_eq!(rf.author().clone(), Some("Jane Doe".to_string()));
}

#[test]
fn fetch_scenario_iris_wine() {
    let rf = Roverfile::new(
        "roverfile".to_string(),
        None,
        vec![
            (
                "iris".to_string(),
                ds("iris.csv", "iris", "https://example.org/iris.csv"),
            ),
            (
                "wine".to_string(),
                ds("wine.csv", "wine", "https://example.org/wine.csv"),
            ),
        ],
    )
    .unwrap();

    let names = request(&["iris", "wine"]);
    let dd = DatasetDownloader::new(&rf, &names);
    let mut plan = dd.execute().unwrap();
    let fetched = drive_all(&mut plan);
    assert_eq!(fetched, vec!["iris.csv", "wine.csv"]);

    let names = request(&["iris", "banana"]);
    let dd = DatasetDownloader::new(&rf, &names);
    let mut fetch_calls = 0;
    match dd.execute() {
        Ok(mut plan) => {
            while plan.next_dataset().is_some() {
                fetch_calls += 1;
                plan.record_success();
            }
        }
        Err(e) => match e {
            RoverError::UnknownDatasets(missing) => {
                assert_eq!(missing, vec!["banana"]);
            }
            _ => panic!("expected UnknownDatasets"),
        },
    }
    assert_eq!(fetch_calls, 0);
}

#[test]
fn listing_is_sorted_whatever_the_insertion_order() {
    let rf = sample();
    let sorted = rf.sorted_names();
    assert_eq!(sorted, vec!["abalone", "iris", "wine"]);
    let lines = rf.list_lines();
    assert_eq!(
        lines,
        vec![
            "abalone\tAbalone age dataset",
            "iris   \tFisher's iris flower dataset",
            "wine   \tWine quality dataset",
        ]
    );
}

#[test]
fn duplicate_names_are_a_parse_error() {
    let r = Roverfile::new(
        "roverfile".to_string(),
        None,
        vec![
            ("iris".to_string(), ds("a.csv", "a", "u")),
            ("iris".to_string(), ds("b.csv", "b", "v")),
        ],
    );
    assert!(matches!(r, Err(RoverError::ParseError)));
}

#[test]
fn lookup_is_exact_and_case_sensitive() {
    let rf = sample();
    assert!(rf.get_dataset("iris").is_some());
    assert!(rf.get_dataset("Iris").is_none());
    assert!(rf.get_dataset("iri").is_none());
    assert!(rf.get_dataset("").is_none());
}

#[test]
fn dataset_names_keeps_stored_order() {
    let rf = sample();
    assert_eq!(rf.dataset_names(), vec!["wine", "iris", "abalone"]);
}

#[test]
fn show_info_lines_are_exact() {
    let d = ds("iris.csv", "Fisher's iris flower dataset", "https://example.org/iris.csv");
    let lines = d.show_info();
    assert_eq!(
        lines,
        vec![
            "Filename    : iris.csv",
            "Description : Fisher's iris flower dataset",
            "Source      : https://example.org/iris.csv",
        ]
    );
}

#[test]
fn entry_formatting_pads_to_width() {
    assert_eq!(format_entry("iris", "desc", 7), "iris   \tdesc");
    assert_eq!(format_entry("abalone", "other", 7), "abalone\tother");
    assert_eq!(format_entry("longname", "d", 4), "longname\td");
    let names = vec!["iris".to_string(), "abalone".to_string()];
    assert_eq!(max_name_width(&names), 7);
}

#[test]
fn error_messages_are_fixed_lines() {
    assert_eq!(RoverError::NotFound.message(), "could not find roverfile");
    assert_eq!(RoverError::ParseError.message(), "could not parse roverfile");
    assert_eq!(RoverError::NetworkError.message(), "could not retrieve dataset");
    assert_eq!(RoverError::IOError.message(), "could not write dataset to disk");
}

#[test]
fn path_is_kept() {
    let rf = sample();
    assert_eq!(rf.path(), "roverfile");
}
