use blog_backend::nus3audio_converter::{
    download_path, fresh_upload_id, pack_lopus, plan_upload, upload_id, UploadStep, ARCHIVE_LIMIT,
};

#[test]
fn upload_id_is_32_hex_digits() {
    assert_eq!(upload_id(0), "00000000000000000000000000000000");
    assert_eq!(upload_id(0xdead_beef), "000000000000000000000000deadbeef");
    assert_eq!(upload_id(u128::MAX), "ffffffffffffffffffffffffffffffff");
    assert_eq!(upload_id(1 << 127), "80000000000000000000000000000000");
    assert_eq!(
        upload_id(0x0123_4567_89ab_cdef_fedc_ba98_7654_3210),
        "0123456789abcdeffedcba9876543210"
    );
}

#[test]
fn upload_id_agrees_with_format() {
    for seed in [1u128, 15, 16, 255, 4096, 0xabc_def0_1234, u128::MAX - 1, u128::MAX / 3] {
        assert_eq!(upload_id(seed), format!("{:032x}", seed));
    }
}

#[test]
fn fresh_upload_id_is_32_hex_digits() {
    let first = fresh_upload_id();
    let second = fresh_upload_id();
    for id in [&first, &second] {
        assert_eq!(id.len(), 32);
        assert!(id.chars().all(|c| c.is_ascii_digit() || ('a'..='f').contains(&c)));
    }
    assert_ne!(first, second);
}

#[test]
fn plan_names_the_files_of_an_upload() {
    let plan = plan_upload("0f", "song", "wav");
    assert_eq!(plan.directory, "/tmp/nus3audio/0f");
    assert_eq!(plan.upload_path, "/tmp/nus3audio/0f/song.wav");
    assert_eq!(plan.lopus_path, "/tmp/nus3audio/0f/song.lopus");
    assert_eq!(plan.archive_path, "/tmp/nus3audio/0f/song.nus3audio");
    assert_eq!(plan.address, "/nus3audio/files/0f/song.nus3audio");
}

#[test]
fn address_leads_to_the_archive() {
    let plan = plan_upload("abc", "my song", "mp3");
    assert_eq!(download_path("abc", "my song.nus3audio"), plan.archive_path);
    assert_eq!(download_path("id", "name"), "/tmp/nus3audio/id/name");
}

const PACKED: &[u8] = b"NUS3m\x00\x00\x00AUDIINDX\x04\x00\x00\x00\x01\x00\x00\x00TNID\x04\x00\x00\x00\x00\x00\x00\x00NMOF\x04\x00\x00\x00H\x00\x00\x00ADOF\x08\x00\x00\x00p\x00\x00\x00\x05\x00\x00\x00TNNM\n\x00\x00\x00test_name\x00JUNK\x0e\x00\x00\x00\x00\x00\x00\x00\x00\x00\x00\x00\x00\x00\x00\x00\x00\x00PACK\x05\x00\x00\x00test\n";

#[test]
fn pack_lopus_writes_an_archive() {
    let bytes = pack_lopus("test_name", b"test\n".to_vec()).unwrap();
    assert_eq!(bytes, PACKED.to_vec());
    assert_eq!(bytes.len(), 0x70 + 5);
}

#[test]
fn pack_lopus_can_be_read_back() {
    let data: Vec<u8> = (0..=255u8).cycle().take(1000).collect();
    let bytes = pack_lopus("track", data.clone()).unwrap();
    let archive = nus3audio::Nus3audioFile::from_bytes(&bytes);
    assert_eq!(archive.files.len(), 1);
    assert_eq!(archive.files[0].id, 0);
    assert_eq!(archive.files[0].name, "track");
    assert_eq!(archive.files[0].data, data);
}

#[test]
fn pack_lopus_takes_empty_input() {
    let bytes = pack_lopus("", Vec::new()).unwrap();
    let archive = nus3audio::Nus3audioFile::from_bytes(&bytes);
    assert_eq!(archive.files.len(), 1);
    assert_eq!(archive.files[0].name, "");
    assert!(archive.files[0].data.is_empty());
    assert_eq!(ARCHIVE_LIMIT, 0x7fff_ffff);
}

#[test]
fn steps_follow_in_order() {
    let order = [
        UploadStep::ClearExpired,
        UploadStep::CreateDirectory,
        UploadStep::StoreUpload,
        UploadStep::Convert,
        UploadStep::ReadConverted,
        UploadStep::WriteArchive,
        UploadStep::RemoveConverted,
        UploadStep::RemoveUpload,
        UploadStep::Finished,
    ];
    assert_eq!(UploadStep::first(), order[0]);
    for at in 0..order.len() - 1 {
        assert_eq!(order[at].advance(true), order[at + 1]);
    }
}

#[test]
fn a_failed_required_step_fails_the_upload() {
    for step in [
        UploadStep::CreateDirectory,
        UploadStep::StoreUpload,
        UploadStep::Convert,
        UploadStep::ReadConverted,
        UploadStep::WriteArchive,
    ] {
        assert_eq!(step.advance(false), UploadStep::Failed);
    }
}

#[test]
fn a_failed_cleanup_is_passed_over() {
    assert_eq!(UploadStep::ClearExpired.advance(false), UploadStep::CreateDirectory);
    assert_eq!(UploadStep::RemoveConverted.advance(false), UploadStep::RemoveUpload);
    assert_eq!(UploadStep::RemoveUpload.advance(false), UploadStep::Finished);
}

#[test]
fn outcomes_stay() {
    for succeeded in [true, false] {
        assert_eq!(UploadStep::Finished.advance(succeeded), UploadStep::Finished);
        assert_eq!(UploadStep::Failed.advance(succeeded), UploadStep::Failed);
    }
}
