use onyx::channel::Record;
use onyx::files::names::{
    is_executable_mime, is_valid_conversation_key, join_path, sanitize_filename,
};
use onyx::files::sanitize::{
    finish_reencode, sanitize_as, sanitize_bytes, treatment, RasterFormat, ReencodeFailure,
    SanitizeError, SanitizeOpts, Treatment,
};
use onyx::files::send::{chunk_file_for_send, wire_name};
use onyx::files::storage::{finalize_file, receive_chunk, FileStep, FinalizeReject};
use onyx::files::transfer::{
    accept_file_chunk, accept_file_meta, quota_window_start, AcceptDecision, ChunkOutcome,
    FilesConfig, InflightTable,
};
use onyx::room::RoomAppMessage;

#[test]
fn sanitize_strips_path_separators() {
    // Separators become `_`; dots stay, they are allowed in names.
    assert_eq!(sanitize_filename("../../etc/passwd"), ".._.._etc_passwd");
    assert_eq!(sanitize_filename("a\\b\\c"), "a_b_c");
    assert_eq!(
        sanitize_filename("with spaces and 漢字"),
        "with_spaces_and___"
    );
}

#[test]
fn valid_conversation_key_accepts_local_shapes_only() {
    // The shapes the daemon actually produces.
    assert!(is_valid_conversation_key("room/abcdefgh"));
    assert!(is_valid_conversation_key("peer/a2b3c4d5"));
    assert!(is_valid_conversation_key("room/a")); // 1 char ok
    assert!(is_valid_conversation_key("room/abcdefghijklmnop")); // 16 ok

    // Traversal / injection attempts must all be rejected.
    assert!(!is_valid_conversation_key("room/../../etc"));
    assert!(!is_valid_conversation_key("../secrets"));
    assert!(!is_valid_conversation_key("/abs/path"));
    assert!(!is_valid_conversation_key("room/with/slash"));
    assert!(!is_valid_conversation_key("room/")); // empty tail
    assert!(!is_valid_conversation_key("room/abcdefghijklmnopq")); // 17 > 16
    assert!(!is_valid_conversation_key("ROOM/abcdefgh")); // wrong prefix case
    assert!(!is_valid_conversation_key("group/abcdefgh")); // unknown prefix
    assert!(!is_valid_conversation_key("room/UPPER")); // uppercase tail
    assert!(!is_valid_conversation_key("room/has.dot")); // '.' not base32
    assert!(!is_valid_conversation_key("room/has-dash")); // '-' not base32
    assert!(!is_valid_conversation_key("room/01")); // 0,1 not in base32 alphabet
    assert!(!is_valid_conversation_key("noslash"));
    assert!(!is_valid_conversation_key(""));
}

#[test]
fn sanitize_preserves_safe_chars() {
    assert_eq!(
        sanitize_filename("photo_2026-01-12.jpg"),
        "photo_2026-01-12.jpg"
    );
    assert_eq!(sanitize_filename("a.b.c"), "a.b.c");
}

#[test]
fn sanitize_truncates_long_names() {
    let long: String = "a".repeat(200);
    let out = sanitize_filename(&long);
    assert_eq!(out.len(), 64);
}

#[test]
fn sanitize_empty_yields_unnamed() {
    assert_eq!(sanitize_filename(""), "unnamed");
    // All dots would name a directory on some file systems.
    assert_eq!(sanitize_filename("..."), "unnamed");
    // `///` becomes `___`, which is a name.
    assert_eq!(sanitize_filename("///"), "___");
}

#[test]
fn sanitize_twice_is_sanitize_once() {
    for raw in ["../../etc/passwd", "", "....", "a b", "ü", "x.tar.gz"] {
        let once = sanitize_filename(raw);
        assert_eq!(sanitize_filename(&once), once);
    }
}

#[test]
fn executable_mimes_rejected() {
    assert!(is_executable_mime("application/x-msdownload"));
    assert!(is_executable_mime("application/x-mach-binary"));
    assert!(is_executable_mime("application/x-executable"));
    assert!(!is_executable_mime("image/jpeg"));
    assert!(!is_executable_mime("application/pdf"));
}

/// A small JPEG with a segment of metadata that is easy to find again.
fn jpeg_with_fake_exif() -> Vec<u8> {
    let img = image::DynamicImage::new_rgb8(4, 4);
    let mut buf = Vec::new();
    img.write_to(
        &mut std::io::Cursor::new(&mut buf),
        image::ImageFormat::Jpeg,
    )
    .unwrap();
    let canary = b"ONYX-EXIF-CANARY-12345";
    let mut exif_segment: Vec<u8> = vec![
        0xFF, 0xE1, // APP1 marker
        0, 0, // length placeholder
        b'E', b'x', b'i', b'f', 0x00, 0x00, // EXIF header
    ];
    exif_segment.extend_from_slice(canary);
    let len = (exif_segment.len() - 2) as u16;
    exif_segment[2] = (len >> 8) as u8;
    exif_segment[3] = len as u8;
    let mut out = Vec::with_capacity(buf.len() + exif_segment.len());
    out.extend_from_slice(&buf[..2]);
    out.extend_from_slice(&exif_segment);
    out.extend_from_slice(&buf[2..]);
    out
}

#[test]
fn sanitize_strips_jpeg_exif_canary() {
    let dirty = jpeg_with_fake_exif();
    let canary = b"ONYX-EXIF-CANARY-12345";
    assert!(dirty.windows(canary.len()).any(|w| w == canary));
    let cleaned = sanitize_bytes(&mut Record::new(), &dirty, SanitizeOpts::default()).unwrap();
    assert_eq!(cleaned.mime, "image/jpeg");
    assert!(cleaned.stripped);
    assert!(
        !cleaned.bytes.windows(canary.len()).any(|w| w == canary),
        "EXIF canary survived the strip — metadata leak"
    );
    let _re = image::load_from_memory(&cleaned.bytes).expect("cleaned output decodes");
}

#[test]
fn sanitize_keep_metadata_passes_canary_through() {
    let dirty = jpeg_with_fake_exif();
    let canary = b"ONYX-EXIF-CANARY-12345";
    let cleaned = sanitize_bytes(
        &mut Record::new(),
        &dirty,
        SanitizeOpts {
            keep_metadata: true,
        },
    )
    .unwrap();
    assert!(!cleaned.stripped);
    assert!(
        cleaned.bytes.windows(canary.len()).any(|w| w == canary),
        "keep_metadata=true should preserve metadata (it didn't)"
    );
}

#[test]
fn sanitize_refuses_pdf() {
    let fake_pdf = b"%PDF-1.4\n%fake content for sniff test\n%%EOF";
    let err = sanitize_bytes(&mut Record::new(), fake_pdf, SanitizeOpts::default()).unwrap_err();
    assert!(matches!(err, SanitizeError::UnsupportedFormat(_)));
}

#[test]
fn sanitize_refuses_zip() {
    let fake_zip = b"PK\x03\x04fake-zip-bytes";
    let err = sanitize_bytes(&mut Record::new(), fake_zip, SanitizeOpts::default()).unwrap_err();
    assert!(matches!(err, SanitizeError::UnsupportedFormat(_)));
}

#[test]
fn sanitize_unknown_format_errors() {
    let random = b"not any recognizable format magic bytes";
    let err = sanitize_bytes(&mut Record::new(), random, SanitizeOpts::default()).unwrap_err();
    assert!(matches!(err, SanitizeError::UnknownFormat));
}

#[test]
fn sanitize_keep_metadata_accepts_unknown_format() {
    let random = b"not any recognizable format magic bytes";
    let cleaned = sanitize_bytes(
        &mut Record::new(),
        random,
        SanitizeOpts {
            keep_metadata: true,
        },
    )
    .unwrap();
    assert_eq!(cleaned.mime, "application/octet-stream");
    assert!(!cleaned.stripped);
    assert_eq!(cleaned.bytes, random);
}

fn picture(format: image::ImageFormat) -> Vec<u8> {
    let img = image::DynamicImage::new_rgb8(3, 2);
    let mut buf = Vec::new();
    img.write_to(&mut std::io::Cursor::new(&mut buf), format).unwrap();
    buf
}

/// Every picture format that is taken comes out in the format it is announced in.
#[test]
fn sanitize_writes_the_announced_format() {
    for (input, mime, magic) in [
        (image::ImageFormat::Jpeg, "image/jpeg", vec![0xFFu8, 0xD8, 0xFF]),
        (image::ImageFormat::Png, "image/png", vec![0x89, b'P', b'N', b'G']),
        (image::ImageFormat::Bmp, "image/png", vec![0x89, b'P', b'N', b'G']),
        (image::ImageFormat::Tiff, "image/png", vec![0x89, b'P', b'N', b'G']),
        (image::ImageFormat::WebP, "image/webp", b"RIFF".to_vec()),
    ] {
        let cleaned = sanitize_bytes(&mut Record::new(), &picture(input), SanitizeOpts::default()).unwrap();
        assert_eq!(cleaned.mime, mime);
        assert!(cleaned.stripped);
        assert!(cleaned.bytes.starts_with(&magic));
        if mime == "image/webp" {
            assert_eq!(&cleaned.bytes[8..12], b"WEBP");
        }
        assert!(image::load_from_memory(&cleaned.bytes).is_ok());
    }
}

#[test]
fn broken_pictures_are_refused() {
    let err = sanitize_bytes(&mut Record::new(), b"\xFF\xD8\xFF\xE0 and nothing else", SanitizeOpts::default())
        .unwrap_err();
    assert!(matches!(err, SanitizeError::DecodeFailed(_)));
    assert!(err.message().starts_with("image decode failed: "));
}

#[test]
fn codec_failures_become_errors() {
    let r = finish_reencode(Err(ReencodeFailure::Encode("no".into())), RasterFormat::Png);
    assert_eq!(r.unwrap_err(), SanitizeError::EncodeFailed("no".into()));
    let r = finish_reencode(Err(ReencodeFailure::Decode("no".into())), RasterFormat::Png);
    assert_eq!(r.unwrap_err(), SanitizeError::DecodeFailed("no".into()));
    let ok = finish_reencode(Ok(vec![1, 2]), RasterFormat::WebP).unwrap();
    assert_eq!((ok.bytes, ok.mime.as_str(), ok.stripped), (vec![1, 2], "image/webp", true));
}

#[test]
fn refusals_name_the_format() {
    for (mime, name) in [
        ("image/gif", "image/gif"),
        ("image/heif", "image/heic"),
        ("application/pdf", "application/pdf"),
        ("application/msword", "office document"),
        ("video/mp4", "video"),
        ("audio/ogg", "audio"),
        ("application/x-rar-compressed", "archive"),
        ("text/plain", "text/plain"),
        ("font/woff", "unknown"),
    ] {
        let err = sanitize_as(&mut Record::new(), b"x", SanitizeOpts::default(), mime.to_string()).unwrap_err();
        assert_eq!(err, SanitizeError::UnsupportedFormat(name));
        assert!(err.message().contains(name));
    }
    assert_eq!(treatment("image/tiff"), Treatment::Reencode(RasterFormat::Png));
    assert_eq!(
        SanitizeError::IoError("gone".into()).message(),
        "I/O error: gone"
    );
}

#[test]
fn chunk_file_roundtrip_shape() {
    // 30 KB file, 12 KB chunks → 3 chunks (last is 6 KB).
    let bytes = vec![0xABu8; 30 * 1024];
    let hash: [u8; 32] =
        <blake2::Blake2b<blake2::digest::consts::U32> as blake2::Digest>::digest(&bytes).into();
    let id = [0x11u8; 16];
    let msgs = chunk_file_for_send(
        id,
        "test.bin",
        "application/octet-stream",
        &bytes,
        12 * 1024,
        &hash,
    );
    assert_eq!(msgs.len(), 4); // 1 FileMeta + 3 FileChunk
    match &msgs[0] {
        RoomAppMessage::FileMeta {
            chunks,
            chunk_size,
            size,
            ..
        } => {
            assert_eq!(*chunks, 3);
            assert_eq!(*chunk_size, 12 * 1024);
            assert_eq!(*size, 30 * 1024);
        }
        other => panic!("first message must be FileMeta; got {other:?}"),
    }
    // Last chunk size = 6 KB
    match &msgs[3] {
        RoomAppMessage::FileChunk { bytes, .. } => {
            assert_eq!(bytes.len(), 6 * 1024);
        }
        other => panic!("last message must be FileChunk; got {other:?}"),
    }
}

#[test]
fn an_empty_file_has_an_announcement_and_no_chunk() {
    let msgs = chunk_file_for_send([1; 16], "e", "m", &[], 10, &[0; 32]);
    assert_eq!(msgs.len(), 1);
    match &msgs[0] {
        RoomAppMessage::FileMeta { chunks, size, .. } => {
            assert_eq!(*chunks, 1);
            assert_eq!(*size, 0);
        }
        other => panic!("expected FileMeta, got {other:?}"),
    }
}

#[test]
fn names_on_the_wire() {
    assert_eq!(wire_name("holiday photo.jpg", false), "file.jpg");
    assert_eq!(wire_name("holiday photo.jpg", true), "holiday_photo.jpg");
    assert_eq!(wire_name("archive.tar.gz", false), "file.gz");
    assert_eq!(wire_name("README", false), "file.bin");
    assert_eq!(wire_name(".bashrc", false), "file.bin");
    assert_eq!(wire_name("..", false), "file.bin");
}

#[test]
fn paths_are_joined() {
    assert_eq!(join_path("/a", "b"), "/a/b");
    assert_eq!(join_path("/a/", "b"), "/a/b");
    assert_eq!(join_path("", "b"), "b");
}

fn cfg() -> FilesConfig {
    FilesConfig::defaults("/data")
}

#[test]
fn default_limits() {
    let c = cfg();
    assert_eq!(c.max_send_size_bytes, 50 * 1024 * 1024);
    assert_eq!(c.max_recv_size_bytes, 50 * 1024 * 1024);
    assert_eq!(c.max_recv_per_day_bytes, 500 * 1024 * 1024);
    assert_eq!(c.chunk_size_bytes, 12 * 1024);
    assert_eq!(c.storage_dir, "/data/files");
    assert_eq!(c.max_inflight_total_bytes, 256 * 1024 * 1024);
    assert_eq!(c.inflight_deadline_ms, 600_000);
}

fn announce(
    table: &mut InflightTable,
    c: &FilesConfig,
    recent: u64,
    sender: &str,
    id: u8,
    mime: &str,
    size: u64,
    chunks: u32,
    chunk_size: u32,
    now: i64,
) -> AcceptDecision {
    accept_file_meta(
        table, c, recent, sender, "room/abcdefgh", &[id; 16], "n", mime, size, chunks, chunk_size,
        &[0; 32], now,
    )
}

#[test]
fn announcements_are_judged() {
    let c = cfg();
    let mut t = InflightTable::new();
    let max = c.max_recv_size_bytes;
    assert_eq!(
        announce(&mut t, &c, 0, "a", 1, "m", max + 1, 1, 1, 0),
        AcceptDecision::RejectTooLarge
    );
    assert_eq!(
        announce(&mut t, &c, c.max_recv_per_day_bytes, "a", 1, "m", 1, 1, 1, 0),
        AcceptDecision::RejectQuotaExceeded
    );
    assert_eq!(
        announce(&mut t, &c, u64::MAX, "a", 1, "m", 1, 1, 1, 0),
        AcceptDecision::RejectQuotaExceeded
    );
    assert_eq!(
        announce(&mut t, &c, 0, "a", 1, "application/x-sh", 1, 1, 1, 0),
        AcceptDecision::RejectExecutable
    );
    assert_eq!(
        announce(&mut t, &c, 0, "b", 1, "application/x-executable", 1, 1, 1, 0),
        AcceptDecision::RejectExecutable
    );
    for (size, chunks, chunk_size) in [(10, 0, 5), (10, 2, 0), (11, 2, 5), (5, 2, 5), (0, 1, 5)] {
        assert_eq!(
            announce(&mut t, &c, 0, "b", 1, "m", size, chunks, chunk_size, 0),
            AcceptDecision::RejectMalformed
        );
    }
    assert_eq!(
        announce(&mut t, &c, 0, "b", 1, "m", 6, 2, 5, 0),
        AcceptDecision::Accepted
    );
}

#[test]
fn a_sender_has_ten_transfers_at_most() {
    let c = cfg();
    let mut t = InflightTable::new();
    for i in 0..10 {
        assert_eq!(
            announce(&mut t, &c, 0, "a", i, "m", 1, 1, 1, 0),
            AcceptDecision::Accepted
        );
    }
    assert_eq!(
        announce(&mut t, &c, 0, "a", 10, "m", 1, 1, 1, 0),
        AcceptDecision::RejectInflightCap
    );
    // The same file again starts anew, and another sender has its own limit.
    assert_eq!(
        announce(&mut t, &c, 0, "a", 3, "m", 1, 1, 1, 0),
        AcceptDecision::Accepted
    );
    assert_eq!(
        announce(&mut t, &c, 0, "b", 10, "m", 1, 1, 1, 0),
        AcceptDecision::Accepted
    );
    assert_eq!(t.len(), 11);
}

#[test]
fn all_senders_together_are_bounded() {
    let mut c = cfg();
    c.max_inflight_total_bytes = 100;
    let mut t = InflightTable::new();
    assert_eq!(
        announce(&mut t, &c, 0, "a", 1, "m", 60, 1, 60, 0),
        AcceptDecision::Accepted
    );
    assert_eq!(
        announce(&mut t, &c, 0, "b", 1, "m", 41, 1, 41, 0),
        AcceptDecision::RejectInflightCap
    );
    assert_eq!(
        announce(&mut t, &c, 0, "b", 1, "m", 40, 1, 40, 0),
        AcceptDecision::Accepted
    );
    // A transfer that takes too long frees its share.
    assert_eq!(
        announce(&mut t, &c, 0, "c", 1, "m", 100, 1, 100, c.inflight_deadline_ms + 1),
        AcceptDecision::Accepted
    );
    assert_eq!(t.len(), 1);
}

/// A file that is announced again is due when it was due at first.
#[test]
fn announcing_again_gains_no_time() {
    let mut c = cfg();
    c.max_inflight_total_bytes = 100;
    let late = c.inflight_deadline_ms;
    let mut t = InflightTable::new();
    for now in [0, late / 2, late] {
        assert_eq!(
            announce(&mut t, &c, 0, "a", 1, "m", 60, 1, 60, now),
            AcceptDecision::Accepted
        );
    }
    assert_eq!(
        announce(&mut t, &c, 0, "b", 1, "m", 60, 1, 60, late + 1),
        AcceptDecision::Accepted
    );
    assert_eq!(t.len(), 1);
}

#[test]
fn quota_window_is_a_day() {
    assert_eq!(quota_window_start(86_400_001), 1);
    assert_eq!(quota_window_start(i64::MIN), i64::MIN);
}

fn send_all(
    t: &mut InflightTable,
    c: &FilesConfig,
    conversation: &str,
    bytes: &[u8],
    mime: &str,
    hash: &[u8; 32],
    order: &[usize],
) -> FileStep {
    let msgs = chunk_file_for_send([9; 16], "a name.txt", mime, bytes, 4, hash);
    match &msgs[0] {
        RoomAppMessage::FileMeta {
            id,
            name,
            mime,
            size,
            chunks,
            chunk_size,
            content_hash,
        } => {
            let d = accept_file_meta(
                t, c, 0, "fp", conversation, id, name, mime, *size, *chunks, *chunk_size,
                content_hash, 0,
            );
            assert_eq!(d, AcceptDecision::Accepted);
        }
        other => panic!("expected FileMeta, got {other:?}"),
    }
    let mut last = FileStep::Dropped;
    for i in order {
        match &msgs[i + 1] {
            RoomAppMessage::FileChunk { id, index, bytes } => {
                last = receive_chunk(t, c, "fp", id, *index, bytes, 1);
            }
            other => panic!("expected FileChunk, got {other:?}"),
        }
    }
    last
}

/// The digest of `hello world`, as `b2sum -l 256` prints it.
const HELLO_HASH: [u8; 32] = [
    0x25, 0x6c, 0x83, 0xb2, 0x97, 0x11, 0x4d, 0x20, 0x1b, 0x30, 0x17, 0x9f, 0x3f, 0x0e, 0xf0, 0xca,
    0xce, 0x97, 0x83, 0x62, 0x2d, 0xa5, 0x97, 0x43, 0x26, 0xb4, 0x36, 0x17, 0x8a, 0xee, 0xf6, 0x10,
];

/// What is sent comes back together, in whatever order the chunks arrive.
#[test]
fn a_file_survives_the_way() {
    for order in [[0usize, 1, 2], [2, 0, 1], [1, 2, 0]] {
        let c = cfg();
        let mut t = InflightTable::new();
        match send_all(
            &mut t,
            &c,
            "room/abcdefgh",
            b"hello world",
            "text/plain",
            &HELLO_HASH,
            &order,
        ) {
            FileStep::Finished(plan) => {
                assert_eq!(plan.bytes, b"hello world");
                assert_eq!(plan.hash, HELLO_HASH);
                assert_eq!(plan.name, "a_name.txt");
                assert_eq!(plan.conversation, "room/abcdefgh");
                assert_eq!(plan.mime, "text/plain");
                assert_eq!(plan.dir, "/data/files/room/abcdefgh");
                assert_eq!(plan.path, "/data/files/room/abcdefgh/256c83b297114d20-a_name.txt");
            }
            other => panic!("expected a finished file, got {other:?}"),
        }
        assert_eq!(t.len(), 0);
    }
}

#[test]
fn a_file_with_another_digest_is_thrown_away() {
    let c = cfg();
    let mut t = InflightTable::new();
    let step = send_all(&mut t, &c, "room/abcdefgh", b"hello world", "m", &[0; 32], &[0, 1, 2]);
    assert!(matches!(step, FileStep::Refused(FinalizeReject::HashMismatch)));
}

#[test]
fn a_file_for_a_bad_conversation_is_thrown_away() {
    let c = cfg();
    let mut t = InflightTable::new();
    let step = send_all(&mut t, &c, "room/../x", b"hello world", "m", &HELLO_HASH, &[0, 1, 2]);
    assert!(matches!(step, FileStep::Refused(FinalizeReject::BadConversation)));
}

#[test]
fn a_program_is_thrown_away_whatever_it_is_called() {
    let mut elf = vec![0x7f, b'E', b'L', b'F', 2, 1, 1, 0];
    elf.extend_from_slice(&[0u8; 60]);
    let hash = [
        0xde, 0x61, 0x57, 0x8d, 0x70, 0x3c, 0xaf, 0x01, 0x76, 0xa2, 0x92, 0xfa, 0xf3, 0x16, 0x20,
        0x7a, 0x5e, 0x08, 0x96, 0x41, 0x90, 0x2f, 0xc2, 0x7b, 0x17, 0x00, 0x64, 0xd5, 0x2a, 0x25,
        0xed, 0x6c,
    ];
    let c = cfg();
    let mut t = InflightTable::new();
    let order: Vec<usize> = (0..elf.len() / 4).collect();
    let step = send_all(&mut t, &c, "room/abcdefgh", &elf, "text/plain", &hash, &order);
    assert!(matches!(step, FileStep::Refused(FinalizeReject::Executable)));
}

#[test]
fn chunks_are_judged() {
    let c = cfg();
    let mut t = InflightTable::new();
    assert_eq!(
        announce(&mut t, &c, 0, "a", 1, "m", 10, 3, 4, 0),
        AcceptDecision::Accepted
    );
    let id = [1u8; 16];
    assert!(matches!(
        accept_file_chunk(&mut t, &c, "b", &id, 0, &[0; 4], 0),
        ChunkOutcome::Dropped
    ));
    assert!(matches!(
        accept_file_chunk(&mut t, &c, "a", &id, 3, &[0; 4], 0),
        ChunkOutcome::Dropped
    ));
    assert!(matches!(
        accept_file_chunk(&mut t, &c, "a", &id, 0, &[0; 4], 0),
        ChunkOutcome::Buffered
    ));
    assert!(matches!(
        accept_file_chunk(&mut t, &c, "a", &id, 0, &[0; 4], 0),
        ChunkOutcome::Dropped
    ));
    assert!(matches!(
        accept_file_chunk(&mut t, &c, "a", &id, 1, &[0; 3], 0),
        ChunkOutcome::Aborted
    ));
    assert_eq!(t.len(), 0);
}

#[test]
fn a_short_last_chunk_is_noticed() {
    let c = cfg();
    let mut t = InflightTable::new();
    assert_eq!(
        announce(&mut t, &c, 0, "a", 1, "m", 6, 2, 4, 0),
        AcceptDecision::Accepted
    );
    let id = [1u8; 16];
    assert!(matches!(
        accept_file_chunk(&mut t, &c, "a", &id, 1, &[0; 1], 0),
        ChunkOutcome::Buffered
    ));
    match accept_file_chunk(&mut t, &c, "a", &id, 0, &[0; 4], 0) {
        ChunkOutcome::Complete(mut file) => {
            assert_eq!(
                finalize_file(&file, &c).unwrap_err(),
                FinalizeReject::SizeMismatch
            );
            file.received.remove(&0);
            assert_eq!(
                finalize_file(&file, &c).unwrap_err(),
                FinalizeReject::MissingChunk(0)
            );
        }
        other => panic!("expected a complete file, got {other:?}"),
    }
}
