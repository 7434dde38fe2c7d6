use myboot::platform::volume::{efi_path_text, label_text, load_options, merge_listings, volume_id};
use myboot::ports::IoError;

fn fnv1a(nodes: &[Vec<u8>]) -> u64 {
    let mut h: u64 = 0xcbf29ce4_84222325;
    for n in nodes {
        for &b in n {
            h ^= b as u64;
            h = h.wrapping_mul(0x0000_0100_0000_01b3);
        }
    }
    h
}

#[test]
fn volume_id_is_the_fnv_hash_of_the_device_path() {
    let nodes = vec![vec![1u8, 2, 3], vec![], vec![0xff, 0x10]];
    assert_eq!(volume_id(&nodes), format!("vol{:016x}", fnv1a(&nodes)));
    // the empty path hashes to the offset basis itself
    assert_eq!(volume_id(&Vec::new()), "volcbf29ce484222325");
    // node boundaries do not matter, only the bytes in order
    assert_eq!(volume_id(&vec![vec![1, 2], vec![3]]), volume_id(&vec![vec![1], vec![2, 3]]));
    assert_ne!(volume_id(&vec![vec![1]]), volume_id(&vec![vec![2]]));
}

#[test]
fn listings_merge_in_first_seen_order() {
    let lists = vec![
        Some(vec!["a".to_string(), "b".to_string()]),
        None,
        Some(vec!["b".to_string(), "c".to_string(), "a".to_string()]),
    ];
    assert_eq!(merge_listings(&lists), Ok(vec!["a".to_string(), "b".to_string(), "c".to_string()]));
    assert_eq!(merge_listings(&vec![None, None]), Err(IoError::NotFound));
    assert_eq!(merge_listings(&vec![Some(Vec::new())]), Ok(Vec::new()));
}

#[test]
fn labels_paths_and_load_options() {
    assert_eq!(label_text("  ESP  "), Some("ESP".to_string()));
    assert_eq!(label_text("   "), None);
    assert_eq!(efi_path_text("/EFI/nixos/k.efi"), "\\EFI\\nixos\\k.efi");
    assert_eq!(load_options(""), Vec::<u16>::new());
    assert_eq!(load_options("ro"), vec![b'r' as u16, b'o' as u16, 0]);
    assert_eq!(load_options("é"), vec![0xe9, 0]);
}
