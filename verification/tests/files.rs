use aria::cover::{data_url, is_image_name, sniff, Picture};
use aria::ipc::VFile;
use aria::paths::join_twice;
use aria::vfiles::{basename_of, distinct_slots, sample_parts, slot_cache_key, SampleCache, SampleSlot, VirtualFiles};
use aria::wav::write_wav_pcm16;

fn files(names: &[(&str, &str)]) -> VirtualFiles {
    let v: Vec<VFile> = names.iter().map(|(n, p)| VFile { name: n.to_string(), path: p.to_string() }).collect();
    VirtualFiles::new(&v)
}

fn tiny_wav(frames: usize) -> Vec<u8> {
    write_wav_pcm16(&vec![0i16; frames], 44100)
}

#[test]
fn names_are_found_in_any_spelling() {
    let f = files(&[("SB\\Bg.JPG", "1"), ("audio.mp3", "2"), ("AUDIO.MP3", "3")]);
    assert_eq!(f.resolve("sb/bg.jpg").as_deref(), Some("1"));
    assert_eq!(f.resolve("\"SB/BG.jpg\"").as_deref(), Some("1"));
    assert_eq!(f.resolve("Audio.mp3").as_deref(), Some("2"));
    assert_eq!(f.resolve("elsewhere/audio.mp3").as_deref(), Some("2"));
    assert!(f.resolve("none").is_none());
}

#[test]
fn first_storyboard_by_name() {
    let f = files(&[("z.osb", "1"), ("b.OSB", "2"), ("a.osu", "3")]);
    assert_eq!(f.osb_path().as_deref(), Some("2"));
    assert!(files(&[("a.osu", "3")]).osb_path().is_none());
}

#[test]
fn samples_are_found_by_their_stem() {
    let f = files(&[("soft-hitclap2.ogg", "o"), ("soft-hitclap2.wav", "w"), ("x.mp3", "m")]);
    assert_eq!(f.sample_path("soft-hitclap2").as_deref(), Some("w"));
    assert_eq!(f.sample_path("x").as_deref(), Some("m"));
    assert!(f.sample_path("y").is_none());
}

#[test]
fn last_part_of_a_path() {
    assert_eq!(basename_of("a/b\\c.wav"), "c.wav");
    assert_eq!(basename_of("c"), "c");
    assert_eq!(basename_of("a/"), "");
}

#[test]
fn slots_have_their_keys() {
    let bank = SampleSlot::Bank { bank: "soft".into(), name: "hitnormal".into(), custom: 12 };
    assert_eq!(slot_cache_key(&bank), "soft-hitnormal@12");
    let file = SampleSlot::File { filename: "a.wav".into() };
    assert_eq!(slot_cache_key(&file), "file:a.wav");
    let parts = sample_parts(&file);
    assert_eq!((parts.bank.as_str(), parts.name.as_str()), ("normal", "hitnormal"));
    assert_eq!(parts.filename.as_deref(), Some("a.wav"));
    assert_eq!(sample_parts(&bank).custom, 12);
}

#[test]
fn toggle_reresolves_instead_of_stale_cache() {
    let wav = tiny_wav(2205);
    let own = files(&[("soft-hitnormal.wav", "soft-hitnormal.wav")]);
    let slot = SampleSlot::Bank { bank: "soft".into(), name: "hitnormal".into(), custom: 1 };
    let builtin = tiny_wav(10);
    let mut cache = SampleCache::new();
    let resolve = |cache: &mut SampleCache, store: Option<&VirtualFiles>| -> Option<Vec<u8>> {
        if let Some(hit) = cache.get(None, "map.osu", &slot, store.is_some()) {
            return hit.clone();
        }
        let bytes = match store {
            Some(f) => f.sample_path("soft-hitnormal").map(|_| wav.clone()),
            None => Some(builtin.clone()),
        };
        cache.put(None, "map.osu", &slot, store.is_some(), bytes.clone());
        bytes
    };
    let on = resolve(&mut cache, Some(&own)).expect("开状态应命中谱面文件");
    assert_eq!(on.len(), wav.len(), "谱面 wav 原样透传");
    let off = resolve(&mut cache, None).expect("关状态应回退内置默认");
    assert_ne!(off.len(), on.len(), "关状态不得沿用开状态的缓存字节");
    let on2 = resolve(&mut cache, Some(&own)).unwrap();
    let off2 = resolve(&mut cache, None).unwrap();
    assert_eq!(on2.len(), on.len());
    assert_eq!(off2.len(), off.len());
}

#[test]
fn wav_has_its_header() {
    let mut expected: Vec<u8> = Vec::new();
    expected.extend_from_slice(b"RIFF");
    expected.extend_from_slice(&(36u32 + 8).to_le_bytes());
    expected.extend_from_slice(b"WAVEfmt ");
    expected.extend_from_slice(&16u32.to_le_bytes());
    expected.extend_from_slice(&1u16.to_le_bytes());
    expected.extend_from_slice(&2u16.to_le_bytes());
    expected.extend_from_slice(&48000u32.to_le_bytes());
    expected.extend_from_slice(&(48000u32 * 4).to_le_bytes());
    expected.extend_from_slice(&4u16.to_le_bytes());
    expected.extend_from_slice(&16u16.to_le_bytes());
    expected.extend_from_slice(b"data");
    expected.extend_from_slice(&8u32.to_le_bytes());
    for s in [1i16, -1, 300, i16::MIN] {
        expected.extend_from_slice(&s.to_le_bytes());
    }
    assert_eq!(write_wav_pcm16(&vec![1, -1, 300, i16::MIN], 48000), expected);
}

#[test]
fn pictures_become_data_urls() {
    let png = vec![0x89, b'P', b'N', b'G', 1, 2, 3];
    assert_eq!(sniff(&png), Some(Picture::Png));
    assert_eq!(data_url(&png).as_deref(), Some("data:image/png;base64,iVBORwECAw=="));
    let jpg = vec![0xFF, 0xD8, 0xFF, 0xE0];
    assert_eq!(data_url(&jpg).as_deref(), Some("data:image/jpeg;base64,/9j/4A=="));
    let mut webp = b"RIFF0000WEBP".to_vec();
    assert_eq!(sniff(&webp), Some(Picture::Webp));
    assert!(data_url(&webp).unwrap().starts_with("data:image/webp;base64,UklG"));
    webp.truncate(8);
    assert_eq!(sniff(&webp), None);
    assert!(data_url(&vec![1, 2, 3]).is_none());
    assert!(is_image_name("A.JPEG") && is_image_name("b.webp") && !is_image_name("c.bmpx"));
}

#[test]
fn joining_goes_below() {
    let p = join_twice("a/b", "files", "x");
    assert!(p == "a/b/files/x" || p == "a/b\\files\\x", "{}", p);
    assert_ne!(p, "x");
}

#[test]
fn samples_are_looked_up_once() {
    let bank = |custom: u32| SampleSlot::Bank { bank: "soft".into(), name: "hitclap".into(), custom };
    let file = |name: &str| SampleSlot::File { filename: name.into() };
    let slots = vec![bank(1), file("a.wav"), bank(1), bank(2), file("a.wav"), file("b.wav")];
    assert_eq!(distinct_slots(&slots), vec![0, 1, 3, 5]);
}
