use std::io::Read;

use shiplift::rep::ContainerConfig;
use shiplift::tar::{build_context, tar_archive, TarEntry, TarKind};

fn fixture() -> Vec<TarEntry> {
    let mut data = Vec::new();
    for i in 0..700u32 {
        data.push((i % 251) as u8);
    }
    vec![
        TarEntry { path: b"ctx".to_vec(), mode: 0o755, kind: TarKind::Dir },
        TarEntry {
            path: b"ctx/Dockerfile".to_vec(),
            mode: 0o644,
            kind: TarKind::File(b"FROM busybox\nRUN true\n".to_vec()),
        },
        TarEntry { path: b"ctx/data.bin".to_vec(), mode: 0o600, kind: TarKind::File(data) },
        TarEntry {
            path: b"ctx/link".to_vec(),
            mode: 0o777,
            kind: TarKind::Symlink(b"Dockerfile".to_vec()),
        },
        TarEntry {
            path: b"ctx/.git/config".to_vec(),
            mode: 0o644,
            kind: TarKind::File(b"[core]\n".to_vec()),
        },
    ]
}

/// Re-extracting a built archive yields byte-identical contents and
/// the same relative paths, without what the ignore list excluded.
#[test]
fn tar_round_trip_with_ignores() {
    let entries = fixture();
    let pats = vec![b"ctx/.git".to_vec()];
    let bytes = build_context(entries, &pats, false);
    assert_eq!(bytes.len() % 512, 0);

    let mut archive = tar::Archive::new(&bytes[..]);
    let mut seen: Vec<(String, Option<Vec<u8>>)> = Vec::new();
    for entry in archive.entries().unwrap() {
        let mut entry = entry.unwrap();
        let path = entry.path().unwrap().to_string_lossy().into_owned();
        let kind = entry.header().entry_type();
        if kind.is_file() {
            let mut content = Vec::new();
            entry.read_to_end(&mut content).unwrap();
            seen.push((path, Some(content)));
        } else if kind.is_symlink() {
            let target = entry.link_name().unwrap().unwrap();
            seen.push((
                format!("{} -> {}", path, target.to_string_lossy()),
                None,
            ));
        } else {
            seen.push((path, None));
        }
    }

    assert_eq!(seen.len(), 4);
    assert_eq!(seen[0], ("ctx".to_string(), None));
    assert_eq!(
        seen[1],
        (
            "ctx/Dockerfile".to_string(),
            Some(b"FROM busybox\nRUN true\n".to_vec())
        )
    );
    let mut data = Vec::new();
    for i in 0..700u32 {
        data.push((i % 251) as u8);
    }
    assert_eq!(seen[2], ("ctx/data.bin".to_string(), Some(data)));
    assert_eq!(seen[3], ("ctx/link -> Dockerfile".to_string(), None));
}

/// The archive is a deterministic function of the entries.
#[test]
fn tar_archive_deterministic() {
    let a = tar_archive(&fixture());
    let b = tar_archive(&fixture());
    assert_eq!(a, b);
}

/// The compressed context unpacks to the plain archive bytes.
#[test]
fn tar_gzip_round_trip() {
    let entries = fixture();
    let pats: Vec<Vec<u8>> = Vec::new();
    let plain = build_context(fixture(), &pats, false);
    let gz = build_context(entries, &pats, true);
    assert!(gz.len() >= 10);
    assert_eq!(&gz[0..2], &[0x1f, 0x8b]);
    let mut dec = flate2::read::GzDecoder::new(&gz[..]);
    let mut out = Vec::new();
    dec.read_to_end(&mut out).unwrap();
    assert_eq!(out, plain);
}

/// The environment splits each entry at its first equals sign, the
/// value running to the second, as the daemon's records are read.
#[test]
fn container_config_env() {
    let config = ContainerConfig {
        attach_stderr: None,
        attach_stdin: None,
        attach_stdout: None,
        cmd: None,
        domainname: None,
        entrypoint: None,
        env: Some(vec![
            "PATH=/usr/bin".to_string(),
            "OPTS=a=b".to_string(),
            "EMPTY=".to_string(),
        ]),
        exposed_ports: None,
        hostname: None,
        image: None,
        labels: None,
        on_build: None,
        open_stdin: None,
        stdin_once: None,
        tty: None,
        user: "root".to_string(),
        working_dir: "/".to_string(),
    };
    let env = config.env();
    assert_eq!(env.len(), 3);
    assert_eq!(env.entry(0), ("PATH".to_string(), "/usr/bin".to_string()));
    assert_eq!(env.entry(1), ("OPTS".to_string(), "a".to_string()));
    assert_eq!(env.entry(2), ("EMPTY".to_string(), "".to_string()));
}

/// A path over 100 bytes splits over the ustar prefix and name
/// fields and reads back whole.
#[test]
fn tar_long_path_round_trip() {
    let mut long_path = Vec::new();
    for _ in 0..7 {
        long_path.extend_from_slice(b"deeply/nested/layer/");
    }
    long_path.extend_from_slice(b"leaf.txt");
    assert!(long_path.len() > 100);
    let entries = vec![TarEntry {
        path: long_path.clone(),
        mode: 0o644,
        kind: TarKind::File(b"x".to_vec()),
    }];
    let bytes = tar_archive(&entries);

    let mut archive = tar::Archive::new(&bytes[..]);
    let mut entry_iter = archive.entries().unwrap();
    let mut entry = entry_iter.next().unwrap().unwrap();
    let path = entry.path().unwrap().to_string_lossy().into_owned();
    assert_eq!(path.as_bytes(), &long_path[..]);
    let mut content = Vec::new();
    entry.read_to_end(&mut content).unwrap();
    assert_eq!(content, b"x".to_vec());
    assert!(entry_iter.next().is_none());
}
