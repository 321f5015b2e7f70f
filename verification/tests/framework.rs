use lazy::command::framework::{basename, find_package_script_framework, prepare_framework_args, FrameworkHint, FrameworkName};
use lazy::command::prepare_http_command;

fn strings(items: &[&str]) -> Vec<String> {
    items.iter().map(|s| s.to_string()).collect()
}

#[test]
fn injects_vite_port_host_and_strict_port() {
    let mut argv = vec!["vite".to_string(), "dev".to_string()];

    prepare_framework_args(&mut argv, 4100, Some("127.0.0.1"), None);

    assert_eq!(
        argv,
        vec![
            "vite",
            "dev",
            "--port",
            "4100",
            "--strictPort",
            "--host",
            "127.0.0.1"
        ]
    );
}

#[test]
fn looks_through_package_runner_flags() {
    let mut argv = vec!["pnpm".to_string(), "dlx".to_string(), "vite".to_string()];

    prepare_framework_args(&mut argv, 4200, Some("127.0.0.1"), None);

    assert!(argv.ends_with(&[
        "--port".to_string(),
        "4200".to_string(),
        "--strictPort".to_string(),
        "--host".to_string(),
        "127.0.0.1".to_string(),
    ]));
}

#[test]
fn explicit_framework_hint_covers_hidden_scripts() {
    let mut argv = vec!["pnpm".to_string(), "dev".to_string()];

    prepare_framework_args(
        &mut argv,
        4300,
        Some("127.0.0.1"),
        FrameworkHint::from_name("vite"),
    );

    assert!(argv.contains(&"--port".to_string()));
    assert!(argv.contains(&"4300".to_string()));
    assert!(argv.contains(&"--strictPort".to_string()));
}

#[test]
fn npm_script_arguments_use_forwarding_separator() {
    let mut argv = vec!["npm".to_string(), "run".to_string(), "dev".to_string()];

    prepare_framework_args(
        &mut argv,
        4350,
        Some("127.0.0.1"),
        FrameworkHint::from_name("vite"),
    );

    assert_eq!(
        argv,
        vec![
            "npm",
            "run",
            "dev",
            "--",
            "--port",
            "4350",
            "--strictPort",
            "--host",
            "127.0.0.1"
        ]
    );
}

#[test]
fn expo_uses_localhost_host_value() {
    let mut argv = vec!["expo".to_string(), "start".to_string()];

    prepare_framework_args(&mut argv, 4400, Some("127.0.0.1"), None);

    assert_eq!(
        argv,
        vec!["expo", "start", "--port", "4400", "--host", "localhost"]
    );
}

#[test]
fn respects_existing_port_and_host_flags() {
    let mut argv = vec![
        "vite".to_string(),
        "--port".to_string(),
        "3000".to_string(),
        "--host".to_string(),
        "0.0.0.0".to_string(),
    ];

    prepare_framework_args(&mut argv, 4500, Some("127.0.0.1"), None);

    assert_eq!(argv, vec!["vite", "--port", "3000", "--host", "0.0.0.0"]);
}

#[test]
fn vite_allowed_host_uses_hostname_without_port_or_path() {
    let prepared = prepare_http_command(
        vec!["npx".to_string(), "vite".to_string(), "dev".to_string()],
        4102,
        "https://node.tailnet.ts.net:18443/vite/",
        None,
        None,
    );

    assert!(prepared.env.contains(&(
        "__VITE_ADDITIONAL_SERVER_ALLOWED_HOSTS".to_string(),
        "node.tailnet.ts.net".to_string()
    )));
}

#[test]
fn detects_vite_in_a_simple_pnpm_script() {
    let package = r#"{"scripts":{"dev":"vite dev"}}"#;
    let prepared = prepare_http_command(
        vec!["pnpm".to_string(), "run".to_string(), "dev".to_string()],
        4103,
        "http://vite.localhost:8080",
        None,
        Some(package),
    );

    assert!(prepared.argv.ends_with(&[
        "--port".to_string(),
        "4103".to_string(),
        "--strictPort".to_string(),
        "--host".to_string(),
        "127.0.0.1".to_string(),
    ]));
}

#[test]
fn detects_scripts_for_supported_package_managers() {
    let package = r#"{"scripts":{"dev":"vite dev"}}"#;

    for argv in [
        vec!["npm", "run", "dev"],
        vec!["npm", "run-script", "dev"],
        vec!["pnpm", "run", "dev"],
        vec!["yarn", "run", "dev"],
        vec!["bun", "run", "dev"],
    ] {
        let prepared = prepare_http_command(
            argv.into_iter().map(str::to_string).collect(),
            4104,
            "http://vite.localhost:8080",
            None,
            Some(package),
        );

        assert!(prepared.argv.contains(&"--port".to_string()));
    }
}

#[test]
fn ignores_composed_and_wrapped_package_scripts() {
    for package in [
        r#"{"scripts":{"dev":"vite dev && echo ready"}}"#,
        r#"{"scripts":{"dev":"sh -c 'vite dev'"}}"#,
    ] {
        let prepared = prepare_http_command(
            vec!["pnpm".to_string(), "run".to_string(), "dev".to_string()],
            4105,
            "http://vite.localhost:8080",
            None,
            Some(package),
        );

        assert_eq!(prepared.argv, vec!["pnpm", "run", "dev"]);
    }
}

#[test]
fn prepared_environment_carries_port_url_and_host() {
    let prepared = prepare_http_command(
        strings(&["vite"]),
        4600,
        "http://vite.localhost:8080",
        None,
        None,
    );
    assert_eq!(
        prepared.env,
        vec![
            ("PORT".to_string(), "4600".to_string()),
            ("LAZY_URL".to_string(), "http://vite.localhost:8080".to_string()),
            (
                "__VITE_ADDITIONAL_SERVER_ALLOWED_HOSTS".to_string(),
                "vite.localhost".to_string()
            ),
            ("HOST".to_string(), "127.0.0.1".to_string()),
        ]
    );
}

#[test]
fn expo_framework_hint_binds_localhost() {
    let prepared = prepare_http_command(
        strings(&["npx", "expo", "start"]),
        4601,
        "http://app.localhost:8080",
        Some("expo"),
        None,
    );
    assert!(prepared.env.contains(&("HOST".to_string(), "localhost".to_string())));
    assert!(prepared.argv.ends_with(&["--host".to_string(), "localhost".to_string()]));
}

#[test]
fn unknown_commands_are_left_unchanged() {
    let mut argv = strings(&["python", "-m", "http.server"]);
    prepare_framework_args(&mut argv, 4700, Some("127.0.0.1"), None);
    assert_eq!(argv, strings(&["python", "-m", "http.server"]));
}

#[test]
fn framework_names_and_strict_ports() {
    assert_eq!(
        FrameworkHint::from_name("vite"),
        Some(FrameworkHint { name: FrameworkName::Vite, strict_port: true })
    );
    assert_eq!(
        FrameworkHint::from_name("astro"),
        Some(FrameworkHint { name: FrameworkName::Astro, strict_port: false })
    );
    assert_eq!(FrameworkHint::from_name("webpack"), None);
}

#[test]
fn package_scripts_need_a_known_runner_and_a_script_entry() {
    let package = r#"{"scripts":{"dev":"astro dev"}}"#;
    assert_eq!(
        find_package_script_framework(&strings(&["npm", "run", "dev"]), Some(package)),
        Some(FrameworkHint { name: FrameworkName::Astro, strict_port: false })
    );
    assert_eq!(
        find_package_script_framework(&strings(&["npm", "run", "build"]), Some(package)),
        None
    );
    assert_eq!(find_package_script_framework(&strings(&["npm", "run", "dev"]), None), None);
    assert_eq!(
        find_package_script_framework(&strings(&["make", "run", "dev"]), Some(package)),
        None
    );
    assert_eq!(
        find_package_script_framework(&strings(&["npm", "run", "dev"]), Some("not json")),
        None
    );
}

#[test]
fn unbalanced_quotes_in_a_script_are_not_a_framework() {
    let package = r#"{"scripts":{"dev":"vite 'dev"}}"#;
    assert_eq!(
        find_package_script_framework(&strings(&["pnpm", "run", "dev"]), Some(package)),
        None
    );
}

#[test]
fn path_components_are_stripped_from_the_program() {
    let mut argv = strings(&["./node_modules/.bin/vite"]);
    prepare_framework_args(&mut argv, 4800, Some("127.0.0.1"), None);
    assert_eq!(
        argv,
        strings(&["./node_modules/.bin/vite", "--port", "4800", "--strictPort", "--host", "127.0.0.1"])
    );
}

#[test]
fn preparing_twice_changes_nothing() {
    for command in [
        &["vite", "dev"][..],
        &["npm", "run", "dev"][..],
        &["expo", "start"][..],
        &["python", "-m", "http.server"][..],
    ] {
        let mut once = strings(command);
        prepare_framework_args(&mut once, 4900, Some("127.0.0.1"), FrameworkHint::from_name("vite"));
        let mut twice = once.clone();
        prepare_framework_args(&mut twice, 4901, Some("127.0.0.1"), FrameworkHint::from_name("vite"));
        assert_eq!(twice, once);

        let mut detected = strings(command);
        prepare_framework_args(&mut detected, 4900, Some("127.0.0.1"), None);
        let mut again = detected.clone();
        prepare_framework_args(&mut again, 4902, Some("127.0.0.1"), None);
        assert_eq!(again, detected);
    }
}

#[test]
fn basenames_follow_path_components() {
    assert_eq!(basename("a/b/"), "b");
    assert_eq!(basename("x/./"), "x");
    assert_eq!(basename("a/.."), "a/..");
    assert_eq!(basename("."), ".");
    assert_eq!(basename("/"), "/");
    assert_eq!(basename("vite"), "vite");
    assert_eq!(basename("/usr/bin/npm"), "npm");
}
