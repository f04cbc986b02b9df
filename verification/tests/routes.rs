use site_server::routes::{bind_address, routes, Handler};

#[test]
fn the_server_listens_on_port_8080_of_every_interface() {
    assert_eq!(bind_address(), "0.0.0.0:8080");
}

#[test]
fn the_table_holds_nine_routes() {
    let table: Vec<(&str, Handler, &str)> =
        routes().iter().map(|route| (route.path, route.handler, route.target)).collect();
    assert_eq!(
        table,
        vec![
            ("/projects", Handler::Projects, "assets/projects/html"),
            (
                "/rand-five-letter",
                Handler::RandomWord,
                "assets/projects/data/five-letter-words.txt"
            ),
            ("/", Handler::File, "assets/index.html"),
            ("/favicon", Handler::File, "assets/favicon.png"),
            ("/main.css", Handler::File, "assets/styles.css"),
            ("/project", Handler::Directory, "assets/projects/html"),
            ("/project/css", Handler::Directory, "assets/projects/css"),
            ("/project/js", Handler::Directory, "assets/projects/js"),
            ("/project/data", Handler::Directory, "assets/projects/data"),
        ]
    );
}

#[test]
fn the_computed_answers_are_registered_first() {
    let table = routes();
    assert_eq!(table[0].handler, Handler::Projects);
    assert_eq!(table[1].handler, Handler::RandomWord);
    for route in &table[2..] {
        assert!(matches!(route.handler, Handler::File | Handler::Directory));
    }
}

#[test]
fn no_path_is_registered_twice() {
    let table = routes();
    for (i, first) in table.iter().enumerate() {
        for second in &table[i + 1..] {
            assert_ne!(first.path, second.path);
        }
    }
}

#[test]
fn the_project_list_reads_the_directory_of_project_pages() {
    let table = routes();
    let listed = table.iter().find(|route| route.handler == Handler::Projects).map(|r| r.target);
    let served = table.iter().find(|route| route.path == "/project").map(|r| r.target);
    assert_eq!(listed, Some("assets/projects/html"));
    assert_eq!(listed, served);
}
