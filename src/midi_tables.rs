use vstd::prelude::*;

verus! {

/// Alias name of a General MIDI percussion key.
pub open spec fn drum_slug_spec(n: u8) -> Option<Seq<char>> {
    if n == 35 {
        Some("bass_drum_2"@)
    } else if n == 36 {
        Some("bass_drum"@)
    } else if n == 37 {
        Some("side_stick"@)
    } else if n == 38 {
        Some("snare"@)
    } else if n == 39 {
        Some("clap"@)
    } else if n == 40 {
        Some("snare_2"@)
    } else if n == 41 {
        Some("tom_low_2"@)
    } else if n == 42 {
        Some("hihat_closed"@)
    } else if n == 43 {
        Some("tom_low"@)
    } else if n == 44 {
        Some("hihat_pedal"@)
    } else if n == 45 {
        Some("tom_mid_2"@)
    } else if n == 46 {
        Some("hihat_open"@)
    } else if n == 47 {
        Some("tom_mid"@)
    } else if n == 48 {
        Some("tom_high_2"@)
    } else if n == 49 {
        Some("crash"@)
    } else if n == 50 {
        Some("tom_high"@)
    } else if n == 51 {
        Some("ride"@)
    } else if n == 52 {
        Some("china"@)
    } else if n == 53 {
        Some("ride_bell"@)
    } else if n == 54 {
        Some("tambourine"@)
    } else if n == 55 {
        Some("splash"@)
    } else if n == 56 {
        Some("cowbell"@)
    } else if n == 57 {
        Some("crash_2"@)
    } else if n == 58 {
        Some("vibraslap"@)
    } else if n == 59 {
        Some("ride_2"@)
    } else if n == 60 {
        Some("bongo_high"@)
    } else if n == 61 {
        Some("bongo_low"@)
    } else if n == 62 {
        Some("conga_high_mute"@)
    } else if n == 63 {
        Some("conga_high"@)
    } else if n == 64 {
        Some("conga_low"@)
    } else if n == 65 {
        Some("timbale_high"@)
    } else if n == 66 {
        Some("timbale_low"@)
    } else if n == 67 {
        Some("agogo_high"@)
    } else if n == 68 {
        Some("agogo_low"@)
    } else if n == 69 {
        Some("cabasa"@)
    } else if n == 70 {
        Some("maracas"@)
    } else if n == 71 {
        Some("whistle_short"@)
    } else if n == 72 {
        Some("whistle_long"@)
    } else if n == 73 {
        Some("guiro_short"@)
    } else if n == 74 {
        Some("guiro_long"@)
    } else if n == 75 {
        Some("claves"@)
    } else if n == 76 {
        Some("wood_block_high"@)
    } else if n == 77 {
        Some("wood_block_low"@)
    } else if n == 78 {
        Some("cuica_mute"@)
    } else if n == 79 {
        Some("cuica_open"@)
    } else if n == 80 {
        Some("triangle_mute"@)
    } else if n == 81 {
        Some("triangle_open"@)
    } else {
        None
    }
}

/// Alias name of a General MIDI percussion key (see `drum_slug_spec`).
pub fn drum_slug(n: u8) -> (r: Option<&'static str>)
    ensures
        match r {
            Some(t) => drum_slug_spec(n) == Some(t@),
            None => drum_slug_spec(n) is None,
        },
{
    match n {
        35 => Some("bass_drum_2"),
        36 => Some("bass_drum"),
        37 => Some("side_stick"),
        38 => Some("snare"),
        39 => Some("clap"),
        40 => Some("snare_2"),
        41 => Some("tom_low_2"),
        42 => Some("hihat_closed"),
        43 => Some("tom_low"),
        44 => Some("hihat_pedal"),
        45 => Some("tom_mid_2"),
        46 => Some("hihat_open"),
        47 => Some("tom_mid"),
        48 => Some("tom_high_2"),
        49 => Some("crash"),
        50 => Some("tom_high"),
        51 => Some("ride"),
        52 => Some("china"),
        53 => Some("ride_bell"),
        54 => Some("tambourine"),
        55 => Some("splash"),
        56 => Some("cowbell"),
        57 => Some("crash_2"),
        58 => Some("vibraslap"),
        59 => Some("ride_2"),
        60 => Some("bongo_high"),
        61 => Some("bongo_low"),
        62 => Some("conga_high_mute"),
        63 => Some("conga_high"),
        64 => Some("conga_low"),
        65 => Some("timbale_high"),
        66 => Some("timbale_low"),
        67 => Some("agogo_high"),
        68 => Some("agogo_low"),
        69 => Some("cabasa"),
        70 => Some("maracas"),
        71 => Some("whistle_short"),
        72 => Some("whistle_long"),
        73 => Some("guiro_short"),
        74 => Some("guiro_long"),
        75 => Some("claves"),
        76 => Some("wood_block_high"),
        77 => Some("wood_block_low"),
        78 => Some("cuica_mute"),
        79 => Some("cuica_open"),
        80 => Some("triangle_mute"),
        81 => Some("triangle_open"),
        _ => None,
    }
}

/// Name of a controller number.
pub open spec fn controller_name_spec(n: u8) -> Option<Seq<char>> {
    if n == 1 {
        Some("modulation"@)
    } else if n == 2 {
        Some("breath"@)
    } else if n == 4 {
        Some("foot"@)
    } else if n == 5 {
        Some("portamento_time"@)
    } else if n == 7 {
        Some("volume"@)
    } else if n == 8 {
        Some("balance"@)
    } else if n == 10 {
        Some("pan"@)
    } else if n == 11 {
        Some("expression"@)
    } else if n == 64 {
        Some("sustain"@)
    } else if n == 65 {
        Some("portamento"@)
    } else if n == 66 {
        Some("sostenuto"@)
    } else if n == 67 {
        Some("soft"@)
    } else if n == 71 {
        Some("resonance"@)
    } else if n == 74 {
        Some("brightness"@)
    } else if n == 91 {
        Some("reverb"@)
    } else if n == 93 {
        Some("chorus"@)
    } else {
        None
    }
}

/// Name of a controller number (see `controller_name_spec`).
pub fn controller_name(n: u8) -> (r: Option<&'static str>)
    ensures
        match r {
            Some(t) => controller_name_spec(n) == Some(t@),
            None => controller_name_spec(n) is None,
        },
{
    match n {
        1 => Some("modulation"),
        2 => Some("breath"),
        4 => Some("foot"),
        5 => Some("portamento_time"),
        7 => Some("volume"),
        8 => Some("balance"),
        10 => Some("pan"),
        11 => Some("expression"),
        64 => Some("sustain"),
        65 => Some("portamento"),
        66 => Some("sostenuto"),
        67 => Some("soft"),
        71 => Some("resonance"),
        74 => Some("brightness"),
        91 => Some("reverb"),
        93 => Some("chorus"),
        _ => None,
    }
}

/// Controller number of a name.
pub open spec fn controller_number_spec(s: Seq<char>) -> Option<u8> {
    if s == "modulation"@ {
        Some(1u8)
    } else if s == "breath"@ {
        Some(2u8)
    } else if s == "foot"@ {
        Some(4u8)
    } else if s == "portamento_time"@ {
        Some(5u8)
    } else if s == "volume"@ {
        Some(7u8)
    } else if s == "balance"@ {
        Some(8u8)
    } else if s == "pan"@ {
        Some(10u8)
    } else if s == "expression"@ {
        Some(11u8)
    } else if s == "sustain"@ {
        Some(64u8)
    } else if s == "portamento"@ {
        Some(65u8)
    } else if s == "sostenuto"@ {
        Some(66u8)
    } else if s == "soft"@ {
        Some(67u8)
    } else if s == "resonance"@ {
        Some(71u8)
    } else if s == "brightness"@ {
        Some(74u8)
    } else if s == "reverb"@ {
        Some(91u8)
    } else if s == "chorus"@ {
        Some(93u8)
    } else {
        None
    }
}

/// Controller number of a name (see `controller_number_spec`).
pub fn controller_number(s: &Vec<char>) -> (r: Option<u8>)
    ensures
        r == controller_number_spec(s@),
{
    if crate::record_parser::is_word(s, "modulation") {
        Some(1)
    } else if crate::record_parser::is_word(s, "breath") {
        Some(2)
    } else if crate::record_parser::is_word(s, "foot") {
        Some(4)
    } else if crate::record_parser::is_word(s, "portamento_time") {
        Some(5)
    } else if crate::record_parser::is_word(s, "volume") {
        Some(7)
    } else if crate::record_parser::is_word(s, "balance") {
        Some(8)
    } else if crate::record_parser::is_word(s, "pan") {
        Some(10)
    } else if crate::record_parser::is_word(s, "expression") {
        Some(11)
    } else if crate::record_parser::is_word(s, "sustain") {
        Some(64)
    } else if crate::record_parser::is_word(s, "portamento") {
        Some(65)
    } else if crate::record_parser::is_word(s, "sostenuto") {
        Some(66)
    } else if crate::record_parser::is_word(s, "soft") {
        Some(67)
    } else if crate::record_parser::is_word(s, "resonance") {
        Some(71)
    } else if crate::record_parser::is_word(s, "brightness") {
        Some(74)
    } else if crate::record_parser::is_word(s, "reverb") {
        Some(91)
    } else if crate::record_parser::is_word(s, "chorus") {
        Some(93)
    } else {
        None
    }
}

/// The percussion keys that have alias names, in order.
pub open spec fn drum_keys() -> Seq<u8> {
    Seq::new(47, |i: int| (i + 35) as u8)
}

} // verus!
