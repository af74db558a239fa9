use p2p::frame::{decode, encode, FrameError, MAX_PAYLOAD_LEN};
use p2p::manifest::{Manifest, ManifestInner, PIECE_LENGTH};

const ABC_DIGEST: [u8; 20] =
    [169, 153, 62, 54, 71, 6, 129, 106, 186, 62, 37, 113, 120, 80, 194, 108, 156, 208, 216, 157];

fn inner(filename: &str, byte: u8) -> ManifestInner {
    ManifestInner {
        filename: filename.to_string(),
        file_size: 12,
        piece_size: 100,
        sharps: vec![vec![byte; 16]],
    }
}

#[test]
fn different_manifests_return_different_infohashes() {
    let manifest1 = ManifestInner {
        filename: "MyFile1.txt".to_string(),
        file_size: 12,
        piece_size: 100,
        sharps: vec![vec![1, 1, 1, 1, 1, 1, 1, 1, 1, 1, 1, 1, 1, 1, 1, 1]],
    };

    let manifest2 = ManifestInner {
        filename: "MyFile2.txt".to_string(),
        file_size: 12,
        piece_size: 100,
        sharps: vec![vec![2, 2, 2, 2, 2, 2, 2, 2, 2, 2, 2, 2, 2, 2, 2, 2]],
    };

    assert_ne!(manifest1.infohash(), manifest2.infohash());
}

#[test]
fn the_document_holds_the_fields_in_order() {
    assert_eq!(
        inner("MyFile1.txt", 1).json(),
        b"{\"filename\":\"MyFile1.txt\",\"file_size\":12,\"piece_size\":100,\"sharps\":[[1,1,1,1,1,1,1,1,1,1,1,1,1,1,1,1]]}".to_vec()
    );
}

#[test]
fn names_are_escaped_in_the_document() {
    let name: String = (0u8..128).map(char::from).chain("\u{7f}\u{e9}\u{20ac}\u{1f600}".chars()).collect();
    let mut escaped = String::new();
    for c in name.chars() {
        match c {
            '"' => escaped.push_str("\\\""),
            '\\' => escaped.push_str("\\\\"),
            '\u{8}' => escaped.push_str("\\b"),
            '\t' => escaped.push_str("\\t"),
            '\n' => escaped.push_str("\\n"),
            '\u{c}' => escaped.push_str("\\f"),
            '\r' => escaped.push_str("\\r"),
            c if (c as u32) < 32 => escaped.push_str(&format!("\\u00{:02x}", c as u32)),
            c => escaped.push(c),
        }
    }
    let described = ManifestInner {
        filename: name,
        file_size: usize::MAX,
        piece_size: 0,
        sharps: vec![vec![], vec![0], vec![255, 10]],
    };
    let expected = format!(
        "{{\"filename\":\"{}\",\"file_size\":{},\"piece_size\":0,\"sharps\":[[],[0],[255,10]]}}",
        escaped,
        usize::MAX
    );
    assert_eq!(String::from_utf8(described.json()).unwrap(), expected);
}

#[test]
fn a_description_without_pieces_has_an_empty_list() {
    let described =
        ManifestInner { filename: String::new(), file_size: 0, piece_size: 1, sharps: Vec::new() };
    assert_eq!(
        described.json(),
        b"{\"filename\":\"\",\"file_size\":0,\"piece_size\":1,\"sharps\":[]}".to_vec()
    );
}

#[test]
fn every_field_counts_for_the_infohash() {
    let base = ManifestInner {
        filename: "a".to_string(),
        file_size: 1,
        piece_size: 11,
        sharps: vec![vec![1, 2], vec![3]],
    };
    let mut hashes = vec![base.infohash()];
    let mut other = base.clone();
    other.filename = "a\"".to_string();
    hashes.push(other.infohash());
    let mut other = base.clone();
    other.file_size = 11;
    other.piece_size = 1;
    hashes.push(other.infohash());
    for sharps in [vec![vec![1], vec![2, 3]], vec![vec![3], vec![1, 2]], vec![vec![12], vec![3]], vec![vec![1, 2, 3]]] {
        let mut other = base.clone();
        other.sharps = sharps;
        hashes.push(other.infohash());
    }
    for i in 0..hashes.len() {
        for j in 0..i {
            assert_ne!(hashes[i], hashes[j]);
        }
    }
    assert_eq!(base.infohash(), base.clone().infohash());
}

#[test]
fn renaming_changes_name_and_infohash() {
    let one = Manifest::from_data("one".to_string(), b"data");
    let two = Manifest::from_data("two".to_string(), b"data");
    assert_eq!(one.sharps(), two.sharps());
    assert_eq!(one.file_size(), two.file_size());
    assert_eq!(one.piece_size(), two.piece_size());
    assert!(one != two);
    assert_ne!(one.infohash(), two.infohash());
}

#[test]
fn the_pieces_of_aligned_parts_are_those_of_the_whole() {
    let a = vec![3u8; 2 * PIECE_LENGTH];
    let b = vec![4u8; PIECE_LENGTH + 5];
    let mut whole = a.clone();
    whole.extend(&b);
    let mut parts = Manifest::from_data("a".to_string(), &a).sharps().to_vec();
    parts.extend(Manifest::from_data("b".to_string(), &b).sharps().to_vec());
    assert_eq!(Manifest::from_data("w".to_string(), &whole).sharps(), parts.as_slice());
    assert_eq!(parts.len(), 4);
}

#[test]
fn the_infohash_is_the_digest_of_the_document() {
    assert_eq!(
        inner("MyFile1.txt", 1).infohash(),
        vec![193, 40, 94, 96, 242, 145, 107, 46, 144, 245, 53, 101, 126, 22, 7, 7, 250, 97, 241, 64]
    );
    assert_eq!(
        Manifest::from_inner(inner("MyFile2.txt", 2)).infohash(),
        &[33, 115, 191, 187, 14, 204, 220, 227, 184, 101, 123, 186, 73, 102, 108, 72, 33, 120, 48, 128]
    );
}

#[test]
fn a_small_file_has_one_piece() {
    let manifest = Manifest::from_data("a \"b\".txt".to_string(), b"abc");
    assert_eq!(manifest.filename(), "a \"b\".txt");
    assert_eq!(manifest.file_size(), 3);
    assert_eq!(manifest.piece_size(), 262_144);
    assert_eq!(manifest.pieces_count(), 1);
    assert_eq!(manifest.sharps(), &[ABC_DIGEST.to_vec()]);
    assert_eq!(
        manifest.infohash(),
        &[199, 52, 155, 154, 162, 29, 193, 150, 242, 252, 190, 243, 104, 66, 204, 106, 103, 163, 203, 65]
    );
}

#[test]
fn an_empty_file_has_no_piece() {
    let manifest = Manifest::from_data("empty".to_string(), b"");
    assert_eq!(manifest.file_size(), 0);
    assert_eq!(manifest.pieces_count(), 0);
}

#[test]
fn a_file_is_cut_at_the_piece_length() {
    let mut data = vec![7u8; PIECE_LENGTH];
    assert_eq!(Manifest::from_data("f".to_string(), &data).pieces_count(), 1);
    data.push(8);
    let manifest = Manifest::from_data("f".to_string(), &data);
    assert_eq!(
        manifest.sharps(),
        &[
            vec![67, 177, 78, 56, 172, 4, 130, 8, 249, 29, 127, 246, 208, 128, 195, 193, 181, 163, 36, 249],
            vec![141, 136, 63, 21, 119, 202, 140, 51, 75, 124, 109, 117, 204, 183, 18, 9, 215, 28, 237, 19],
        ]
    );
    let other = Manifest::from_data("g".to_string(), &data);
    assert_eq!(manifest.sharps(), other.sharps());
    assert_ne!(manifest.infohash(), other.infohash());
}

#[test]
fn manifests_are_equal_by_their_descriptions() {
    let one = Manifest { inner: inner("x", 1), infohash: vec![1] };
    let same = Manifest { inner: inner("x", 1), infohash: vec![2] };
    assert!(one == same);
    for other in [inner("y", 1), inner("x", 2)] {
        assert!(one.inner != other);
        assert!(one != Manifest { inner: other, infohash: vec![1] });
    }
    let mut other = inner("x", 1);
    other.file_size = 13;
    assert!(one.inner != other);
    let mut other = inner("x", 1);
    other.piece_size = 101;
    assert!(one.inner != other);
    let mut other = inner("x", 1);
    other.sharps.push(Vec::new());
    assert!(one.inner != other);
    assert_eq!(
        Manifest::from_inner(inner("x", 1)).infohash(),
        Manifest::from_inner(inner("x", 1)).infohash()
    );
}

#[test]
fn a_path_gives_the_name_of_its_file() {
    assert_eq!(Manifest::filename_at("dir/sub/file.txt"), Ok("file.txt".to_string()));
    assert_eq!(Manifest::filename_at("file"), Ok("file".to_string()));
    assert_eq!(Manifest::filename_at("/file"), Ok("file".to_string()));
    assert_eq!(Manifest::filename_at("dir/12:30.txt"), Ok("12:30.txt".to_string()));
    assert_eq!(Manifest::filename_at("12:30"), Ok("12:30".to_string()));
    assert_eq!(Manifest::filename_at("dir/file/"), Ok("file".to_string()));
    assert_eq!(Manifest::filename_at("file/.//."), Ok("file".to_string()));
    assert_eq!(Manifest::filename_at("a/../b"), Ok("b".to_string()));
    for nameless in ["", ".", "./", "./.", "..", "/", "/.", "/..", "a/..", "a/../", "a/../."] {
        assert_eq!(
            Manifest::filename_at(nameless),
            Err(format!("failed to get {:?} file filename", nameless))
        );
    }
    assert_eq!(
        Manifest::filename_at("dir/.."),
        Err("failed to get \"dir/..\" file filename".to_string())
    );
    assert_eq!(
        Manifest::filename_verdict("shown", None),
        Err("failed to get shown file filename".to_string())
    );
    assert_eq!(Manifest::filename_verdict("shown", Some("n".to_string())), Ok("n".to_string()));
}

#[test]
fn a_manifest_comes_back_out_of_its_file() {
    let manifest = Manifest::from_inner(inner("MyFile1.txt", 1));
    let json = manifest.inner.json();
    let frame = manifest.to_frame().unwrap();
    assert_eq!(frame.len(), json.len() + 4);
    assert_eq!(&frame[..4], &[0, 0, 0, 103]);
    assert_eq!(&frame[4..], json.as_slice());
    assert_eq!(decode(&frame), Ok(Some(json)));
}

#[test]
fn a_manifest_that_is_too_long_cannot_be_written() {
    let mut long = inner("long", 200);
    long.sharps = vec![vec![200; 1000]; 2200];
    assert!(long.json().len() > MAX_PAYLOAD_LEN);
    assert_eq!(Manifest::from_inner(long).to_frame(), Err(FrameError::TooBig));
}

#[test]
fn a_frame_holds_its_payload_behind_the_length() {
    assert_eq!(encode(b"hi"), Ok(vec![0, 0, 0, 2, 104, 105]));
    assert_eq!(encode(b""), Ok(vec![0, 0, 0, 0]));
    let frame = encode(&vec![5; 0x01_02_03]).unwrap();
    assert_eq!(&frame[..5], &[0, 1, 2, 3, 5]);
}

#[test]
fn the_longest_payload_fits() {
    let payload = vec![1u8; MAX_PAYLOAD_LEN];
    let frame = encode(&payload).unwrap();
    assert_eq!(&frame[..4], &[0, 128, 0, 0]);
    assert!(decode(&frame) == Ok(Some(payload)));
    assert_eq!(encode(&vec![1u8; MAX_PAYLOAD_LEN + 1]), Err(FrameError::TooBig));
}

#[test]
fn a_frame_gives_its_payload_whatever_follows() {
    assert_eq!(decode(&[0, 0, 0, 2, 104, 105]), Ok(Some(vec![104, 105])));
    assert_eq!(decode(&[0, 0, 0, 2, 104, 105, 0, 0]), Ok(Some(vec![104, 105])));
    assert_eq!(decode(&[0, 0, 0, 0]), Ok(Some(Vec::new())));
}

#[test]
fn a_stream_without_a_frame_gives_nothing() {
    assert_eq!(decode(&[]), Ok(None));
    assert_eq!(decode(&[0, 0, 0, 2]), Ok(None));
}

#[test]
fn a_cut_frame_is_an_error() {
    assert_eq!(decode(&[0]), Err(FrameError::Truncated));
    assert_eq!(decode(&[0, 0, 0]), Err(FrameError::Truncated));
    assert_eq!(decode(&[0, 0, 0, 2, 104]), Err(FrameError::Truncated));
}

#[test]
fn a_frame_that_announces_too_much_is_an_error() {
    assert_eq!(decode(&[0, 128, 0, 1]), Err(FrameError::TooBig));
    assert_eq!(decode(&[255, 255, 255, 255, 1]), Err(FrameError::TooBig));
    assert_eq!(decode(&[0, 128, 0, 0, 1]), Err(FrameError::Truncated));
}

#[test]
fn data_is_cut_at_any_length() {
    let digest = |data: &[u8]| Manifest::data_to_sharps(data, 100);
    assert_eq!(
        Manifest::data_to_sharps(b"abcab", 3),
        vec![ABC_DIGEST.to_vec(), digest(b"ab").remove(0)]
    );
    let mut parts = Manifest::data_to_sharps(b"abcdef", 2);
    parts.extend(Manifest::data_to_sharps(b"ghi", 2));
    assert_eq!(Manifest::data_to_sharps(b"abcdefghi", 2), parts);
    assert_eq!(parts.len(), 5);
    assert!(Manifest::data_to_sharps(b"", 2).is_empty());
}
