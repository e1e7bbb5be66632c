use bittorrent::dot_torrent::{DotTorrent, File, Hashes, Info, Key};
use bittorrent::piece::n_blocks;
use bittorrent::download::{files_of, Downloaded, DownloadedIter};

fn multi_file_torrent() -> DotTorrent {
    DotTorrent {
        announce: String::from("http://127.0.0.1:8000/announce"),
        info: Info {
            name: String::from("album"),
            piece_length: 4,
            pieces: Hashes(vec![[0u8; 20], [1u8; 20]]),
            key: Key::MultipleFiles {
                files: vec![
                    File { length: 3, path: vec![String::from("a"), String::from("one.txt")] },
                    File { length: 2, path: vec![String::from("two.txt")] },
                ],
            },
        },
    }
}

#[test]
fn descriptor_length_and_validation() {
    let dt = multi_file_torrent();
    assert_eq!(dt.length(), 5);
    assert!(dt.validate());
    let mut wrong = multi_file_torrent();
    wrong.info.pieces.0.pop();
    assert!(!wrong.validate());
    let mut zero = multi_file_torrent();
    zero.info.piece_length = 0;
    assert!(!zero.validate());
}

#[test]
fn output_cuts_into_files() {
    let dt = multi_file_torrent();
    let files = files_of(&dt);
    assert_eq!(files.len(), 2);
    assert_eq!(files[0].length, 3);
    assert_eq!(files[0].path, vec![String::from("a"), String::from("one.txt")]);
    let downloaded = Downloaded::new(files, vec![10, 11, 12, 20, 21]);
    let mut iter = DownloadedIter::new(&downloaded);
    let first = iter.next(&downloaded).unwrap();
    assert_eq!(first.path(), &vec![String::from("a"), String::from("one.txt")]);
    assert_eq!(first.bytes(), &vec![10, 11, 12]);
    let second = iter.next(&downloaded).unwrap();
    assert_eq!(second.path(), &vec![String::from("two.txt")]);
    assert_eq!(second.bytes(), &vec![20, 21]);
    assert!(iter.next(&downloaded).is_none());
}

#[test]
fn single_file_layout_carries_the_name() {
    let dt = DotTorrent {
        announce: String::from("http://127.0.0.1:8000/announce"),
        info: Info {
            name: String::from("one.bin"),
            piece_length: 4,
            pieces: Hashes(vec![[0u8; 20]]),
            key: Key::SingleFile { length: 3 },
        },
    };
    let files = files_of(&dt);
    assert_eq!(files.len(), 1);
    assert_eq!(files[0].length, 3);
    assert_eq!(files[0].path, vec![String::from("one.bin")]);
}

#[test]
fn block_counts_round_up() {
    assert_eq!(n_blocks(1), 1);
    assert_eq!(n_blocks(16384), 1);
    assert_eq!(n_blocks(16385), 2);
    assert_eq!(n_blocks(32768), 2);
    assert_eq!(n_blocks(32768 + 5), 3);
}
