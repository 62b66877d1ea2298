use graph_util::link::{ipfs_path, PREFIX_LEN};

#[test]
fn path_is_the_link_without_its_prefix() {
    assert_eq!(Some("QmHash"), ipfs_path("/ipfs/QmHash"));
    assert_eq!(Some("QmHash/file.yaml"), ipfs_path("/ipfs/QmHash/file.yaml"));
    assert_eq!(Some(""), ipfs_path("/ipfs/"));
    assert_eq!(6, PREFIX_LEN);
}

#[test]
fn repeated_prefix_is_taken_off_whole() {
    assert_eq!(Some("QmHash"), ipfs_path("/ipfs//ipfs/QmHash"));
    assert_eq!(Some(""), ipfs_path("/ipfs//ipfs//ipfs/"));
    assert_eq!(Some("ipfs/QmHash"), ipfs_path("/ipfs/ipfs/QmHash"));
    assert_eq!(Some("Qm/ipfs/Hash"), ipfs_path("/ipfs/Qm/ipfs/Hash"));
}

#[test]
fn link_without_prefix_has_no_path() {
    assert_eq!(None, ipfs_path(""));
    assert_eq!(None, ipfs_path("QmHash"));
    assert_eq!(None, ipfs_path("ipfs/QmHash"));
    assert_eq!(None, ipfs_path("/ipfs"));
    assert_eq!(None, ipfs_path("/ipns/QmHash"));
    assert_eq!(None, ipfs_path(" /ipfs/QmHash"));
    assert_eq!(None, ipfs_path("/IPFS/QmHash"));
}

#[test]
fn path_keeps_characters_of_any_width() {
    assert_eq!(Some("h\u{e4}sh/\u{1f980}"), ipfs_path("/ipfs/h\u{e4}sh/\u{1f980}"));
    assert_eq!(None, ipfs_path("\u{e4}/ipfs/hash"));
}

#[test]
fn path_agrees_with_trimming_by_hand() {
    let links = [
        "/ipfs/QmHash",
        "/ipfs//ipfs/QmHash",
        "/ipfs/",
        "/ipfs//ipfs",
        "/ipfs/a/ipfs/",
        "nothing",
    ];
    for link in links.iter() {
        let expected = if link.starts_with("/ipfs/") {
            Some(link.trim_start_matches("/ipfs/"))
        } else {
            None
        };
        assert_eq!(expected, ipfs_path(link));
    }
}
