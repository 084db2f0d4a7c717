use removestaller::backends::userspace::{parse_cargo_list, parse_npm_ls, parse_pip_freeze, pip_bin};

#[test]
fn parses_pip_freeze() {
    let out = "foo==1.2.3\nbar==0.1\n-e vcs+file:///tmp/repo@abc#egg=baz\n";
    let apps = parse_pip_freeze(out);
    assert_eq!(apps.len(), 2);
    assert_eq!(apps[0].id, "foo");
    assert_eq!(apps[0].version.as_deref(), Some("1.2.3"));
    assert_eq!(apps[1].id, "bar");
}

#[test]
fn parses_npm_ls() {
    let out = "/usr/lib\n/usr/lib/node_modules/typescript\n/usr/lib/node_modules/@scope/pkg\n";
    let apps = parse_npm_ls(out);
    assert_eq!(apps.len(), 2);
    assert_eq!(apps[0].id, "typescript");
    assert_eq!(apps[1].id, "@scope/pkg");
}

#[test]
fn parses_cargo_list() {
    let out = "bat v0.24.0:\n    /home/user/.cargo/bin/bat\nexa v0.10.1:\n    /home/user/.cargo/bin/exa\n";
    let apps = parse_cargo_list(out);
    assert_eq!(apps.len(), 2);
    assert_eq!(apps[0].id, "bat");
    assert_eq!(apps[0].version.as_deref(), Some("0.24.0"));
    assert_eq!(apps[1].id, "exa");
}

#[test]
fn pip_freeze_trims_and_skips_empty_names() {
    let apps = parse_pip_freeze("  requests == 2.31.0 \r\n==1.0\nwheel===0.4\n");
    assert_eq!(apps.len(), 2);
    assert_eq!(apps[0].id, "requests");
    assert_eq!(apps[0].name, "requests");
    assert_eq!(apps[0].version.as_deref(), Some("2.31.0"));
    assert_eq!(apps[0].backend, "pip");
    assert_eq!(apps[1].id, "wheel");
    assert_eq!(apps[1].version.as_deref(), Some("=0.4"));
}

#[test]
fn npm_uses_last_node_modules() {
    let apps = parse_npm_ls("/usr/lib/node_modules/a/node_modules/b\n/usr/lib/node_modules/\n");
    assert_eq!(apps.len(), 1);
    assert_eq!(apps[0].id, "b");
    assert_eq!(apps[0].version, None);
    assert_eq!(apps[0].backend, "npm");
}

#[test]
fn cargo_strips_every_leading_v() {
    let apps = parse_cargo_list("tool vv1.0:\nnoversion:\n    /bin/x\n");
    assert_eq!(apps.len(), 1);
    assert_eq!(apps[0].id, "tool");
    assert_eq!(apps[0].version.as_deref(), Some("1.0"));
    assert_eq!(apps[0].backend, "cargo");
}

#[test]
fn prefers_pip3() {
    assert_eq!(pip_bin(true, true), Some("pip3"));
    assert_eq!(pip_bin(false, true), Some("pip"));
    assert_eq!(pip_bin(false, false), None);
}
