use yd_esp32_s3_audio_sd::hw::{HwError, HwOp};
use yd_esp32_s3_audio_sd::sdcard::{is_wav_name, DirEntry, SdCard, SdError};

fn e(name: &str, is_file: bool) -> DirEntry {
    DirEntry { name: name.as_bytes().to_vec(), is_file }
}

#[test]
fn wav_names() {
    assert!(is_wav_name(b"a.wav"));
    assert!(is_wav_name(b"REC_0001.WAV"));
    assert!(is_wav_name(b"x.WaV"));
    assert!(!is_wav_name(b".wav"));
    assert!(!is_wav_name(b"a.wave"));
    assert!(!is_wav_name(b"wav"));
    assert!(!is_wav_name(b"a.mp3"));
    assert!(is_wav_name(b"..wav"));
}

#[test]
fn first_wav_alphabetical_ignoring_case() {
    let sd = SdCard::mount(0).unwrap();
    let entries = vec![
        e("zeta.wav", true),
        e("notes.txt", true),
        e("Beta.WAV", true),
        e("alpha.wav", false),
        e("beta.wav", true),
        e("c.wav", true),
    ];
    // "BETA.WAV" is the smallest key among the files; ties keep directory order
    assert_eq!(sd.first_wav(&entries), Some(2));
    assert_eq!(sd.first_wav(&[e("a.txt", true), e("b.wav", false)]), None);
    assert_eq!(sd.first_wav(&[]), None);
    // a name that is a prefix of another comes first
    assert_eq!(sd.first_wav(&[e("ab.wav.wav", true), e("ab.wav", true)]), Some(1));
}

#[test]
fn recording_names_in_order() {
    let sd = SdCard::mount(0).unwrap();
    let mut search = sd.next_recording_path();
    assert_eq!(search.candidate(), b"REC_0001.WAV".to_vec());
    assert_eq!(search.on_taken(), Ok(()));
    assert_eq!(search.candidate(), b"REC_0002.WAV".to_vec());
    let mut count = 2;
    while search.on_taken().is_ok() {
        count += 1;
    }
    assert_eq!(count, 9999);
    assert_eq!(search.candidate(), b"REC_9999.WAV".to_vec());
    assert_eq!(search.on_taken(), Err(SdError::AllRecordingNamesTaken));
}

#[test]
fn mount_errors() {
    assert!(SdCard::mount(0).is_ok());
    assert_eq!(SdCard::mount(0x107).err(), Some(HwError { op: HwOp::SdMount, code: 0x107 }));
}
