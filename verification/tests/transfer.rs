use airwire::client::{Action, UiEvent};
use airwire::protocol::{AppFrame, FILE_CHUNK_SIZE, MAX_FILE_SIZE};
use airwire::transfer::{
    cannot_receive, media_type_for, Outgoing, SendError, Transfers,
};

const ID: [u8; 16] = [5; 16];

fn begin(transfers: &mut Transfers, id: [u8; 16], name: &str, size: u64) -> UiEvent {
    let offer = transfers.consider(id, "guest", name, size, false).ok().unwrap();
    assert!(transfers.admits(&offer.id));
    let final_name = offer.safe_name.clone();
    transfers.begin(offer, final_name.clone(), format!("/d/{final_name}"))
}

fn digest(bytes: &[u8]) -> [u8; 32] {
    let (mut file, _) = Outgoing::begin(true, bytes.len() as u64, Some("x".into()), "me").unwrap();
    for chunk in bytes.chunks(FILE_CHUNK_SIZE) {
        let _ = file.chunk(chunk.to_vec());
    }
    match file.finish().0 {
        AppFrame::FileComplete { sha256, .. } => sha256,
        other => panic!("{other:?}"),
    }
}

#[test]
fn offers_are_considered() {
    let mut transfers = Transfers::new();
    let offer = transfers.consider(ID, " a\u{7} ", "../p:q.txt", 2048, false).ok().unwrap();
    assert_eq!(offer.from, " a ");
    assert_eq!(offer.name, "../p:q.txt");
    assert_eq!(offer.safe_name, "p_q.txt");
    assert_eq!(
        offer.partial_name,
        ".p_q.txt.05050505050505050505050505050505.airwire-part"
    );
    match transfers.begin(offer, "p_q (1).txt".into(), "/d/p_q (1).txt".into()) {
        UiEvent::Status(text) => assert_eq!(text, "receiving ../p:q.txt (2.0 KiB) from  a "),
        other => panic!("{other:?}"),
    }
    assert!(!transfers.download_path_available(false, "p_q (1).txt"));
    assert!(transfers.download_path_available(false, "p_q (2).txt"));
    assert!(!transfers.download_path_available(true, "p_q (2).txt"));
    assert_eq!(
        transfers.partial_names(),
        vec![".p_q.txt.05050505050505050505050505050505.airwire-part"]
    );
    assert_eq!(
        transfers.consider(ID, "a", "b", 1, false).err().unwrap(),
        "rejected attachment: too many active or duplicate transfers"
    );
}

#[test]
fn large_and_many_offers_are_rejected() {
    let mut transfers = Transfers::new();
    assert!(transfers.consider(ID, "a", "b", MAX_FILE_SIZE, false).is_ok());
    assert_eq!(
        transfers.consider(ID, "a", "b", MAX_FILE_SIZE + 1, false).err().unwrap(),
        "rejected b: file exceeds the 512 MiB limit"
    );
    for number in 0..16 {
        let _ = begin(&mut transfers, [number; 16], "x", 1);
    }
    assert_eq!(
        transfers.consider([99; 16], "a", "b", 1, false).err().unwrap(),
        "rejected attachment: too many active or duplicate transfers"
    );
}

#[test]
fn files_arrive_whole() {
    let mut transfers = Transfers::new();
    let contents: Vec<u8> = (0..FILE_CHUNK_SIZE + 10).map(|n| n as u8).collect();
    let _ = begin(&mut transfers, ID, "x.bin", contents.len() as u64);
    let mut written = Vec::new();
    for (number, chunk) in contents.chunks(FILE_CHUNK_SIZE).enumerate() {
        let actions = transfers.chunk(ID, number as u32, chunk.to_vec());
        assert_eq!(actions.len(), 2);
        match &actions[0] {
            Action::Append { id, bytes } => {
                assert_eq!(*id, ID);
                written.extend_from_slice(bytes);
            }
            _ => panic!("not appended"),
        }
        match &actions[1] {
            Action::Show(UiEvent::FileProgress { label, transferred, total }) => {
                assert_eq!(label, "receiving /d/x.bin");
                assert_eq!(*transferred, written.len() as u64);
                assert_eq!(*total, contents.len() as u64);
            }
            _ => panic!("no progress"),
        }
    }
    assert_eq!(written, contents);
    let actions = transfers.complete(ID, digest(&contents));
    assert_eq!(actions.len(), 3);
    assert!(matches!(&actions[0], Action::Close { id } if *id == ID));
    match &actions[1] {
        Action::Rename { partial, name } => {
            assert_eq!(partial, ".x.bin.05050505050505050505050505050505.airwire-part");
            assert_eq!(name, "x.bin");
        }
        _ => panic!("not renamed"),
    }
    match &actions[2] {
        Action::Show(UiEvent::FileReceived { from, path }) => {
            assert_eq!(from, "guest");
            assert_eq!(path, "/d/x.bin");
        }
        _ => panic!("not received"),
    }
    assert!(transfers.complete(ID, [0; 32]).is_empty());
}

#[test]
fn broken_streams_are_discarded() {
    let broken = |sequence: u32, bytes: Vec<u8>| {
        let mut transfers = Transfers::new();
        let _ = begin(&mut transfers, ID, "x", FILE_CHUNK_SIZE as u64 * 2);
        let actions = transfers.chunk(ID, sequence, bytes);
        assert!(matches!(&actions[0], Action::Delete { .. }));
        assert!(matches!(
            &actions[1],
            Action::Show(UiEvent::Error(why)) if why == "discarded an invalid file stream"
        ));
        assert!(transfers.chunk(ID, 0, vec![1]).is_empty());
    };
    broken(1, vec![1]);
    broken(0, vec![0; FILE_CHUNK_SIZE + 1]);
    let mut transfers = Transfers::new();
    let _ = begin(&mut transfers, ID, "x", 3);
    assert!(matches!(transfers.chunk(ID, 0, vec![1, 2])[0], Action::Append { .. }));
    assert!(matches!(transfers.chunk(ID, 1, vec![1, 2])[0], Action::Delete { .. }));
    assert!(transfers.admits(&ID));
}

#[test]
fn damaged_files_are_removed() {
    let mut transfers = Transfers::new();
    for (sent, sha256) in [
        (vec![1, 2, 3], digest(&[1, 2, 4])),
        (vec![1, 2], digest(&[1, 2])),
    ] {
        let _ = begin(&mut transfers, ID, "x", 3);
        let _ = transfers.chunk(ID, 0, sent);
        let actions = transfers.complete(ID, sha256);
        assert!(matches!(&actions[0], Action::Close { .. }));
        assert!(matches!(&actions[1], Action::Delete { .. }));
        assert!(matches!(
            &actions[2],
            Action::Show(UiEvent::Error(why))
                if why == "file integrity check failed; partial file removed"
        ));
    }
}

#[test]
fn failures_to_receive_are_reported() {
    match cannot_receive("/d/x", "denied") {
        UiEvent::Error(text) => assert_eq!(text, "cannot receive /d/x: denied"),
        other => panic!("{other:?}"),
    }
}

#[test]
fn files_are_offered() {
    let (mut file, frame) = Outgoing::begin(true, 5, Some("a.png".into()), "me").unwrap();
    let id = match frame {
        AppFrame::FileOffer { id, alias, name, size, mime } => {
            assert_eq!((alias.as_str(), name.as_str(), size), ("me", "a.png", 5));
            assert_eq!(mime, "image/png");
            id
        }
        other => panic!("{other:?}"),
    };
    let piece = file.chunk(b"hello".to_vec());
    match piece.frame {
        AppFrame::FileChunk { id: same, sequence, bytes } => {
            assert_eq!(same, id);
            assert_eq!(sequence, 0);
            assert_eq!(bytes, b"hello");
        }
        other => panic!("{other:?}"),
    }
    match piece.progress.unwrap() {
        UiEvent::FileProgress { label, transferred, total } => {
            assert_eq!((label.as_str(), transferred, total), ("sending a.png", 5, 5));
        }
        other => panic!("{other:?}"),
    }
    let (frame, event) = file.finish();
    match frame {
        AppFrame::FileComplete { id: same, sha256 } => {
            assert_eq!(same, id);
            assert_eq!(
                hex::encode(sha256),
                "2cf24dba5fb0a30e26e83b2ac5b9e29e1b161e5c1fa7425e73043362938b9824"
            );
        }
        other => panic!("{other:?}"),
    }
    assert!(matches!(event, UiEvent::Status(text) if text == "sent a.png"));
}

#[test]
fn unsuitable_files_are_not_offered() {
    let why = |is_file: bool, size: u64, name: Option<String>| {
        Outgoing::begin(is_file, size, name, "me").err().unwrap()
    };
    assert_eq!(why(false, 0, Some("x".into())), SendError::NotAFile);
    assert_eq!(why(true, MAX_FILE_SIZE + 1, Some("x".into())), SendError::TooLarge);
    assert_eq!(why(true, MAX_FILE_SIZE, None), SendError::NameNotText);
    assert_eq!(SendError::NotAFile.message("/x"), "/x is not a regular file");
    assert_eq!(SendError::TooLarge.message("/x"), "/x exceeds the 512 MiB limit");
    assert_eq!(SendError::NameNotText.message("/x"), "file name is not valid UTF-8");
    assert_eq!(SendError::TooManyChunks.message("/x"), "file has too many chunks");
}

#[test]
fn media_types_follow_extensions() {
    assert_eq!(media_type_for("a.PDF"), "application/pdf");
    assert_eq!(media_type_for("plain"), "application/octet-stream");
    assert_eq!(media_type_for(".png"), "application/octet-stream");
    assert_eq!(media_type_for("x.unknown-extension"), "application/octet-stream");
}
