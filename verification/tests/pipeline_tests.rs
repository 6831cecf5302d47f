use blurhash::pipeline::assemble_hash;
use blurhash::pipeline::parse_hash;
use blurhash::pipeline::validate;
use blurhash::pipeline::validate_components;
use blurhash::quantize::clamp_ac_digit;
use blurhash::quantize::clamp_quantised_max;
use blurhash::quantize::pack_ac;
use blurhash::quantize::pack_dc;
use blurhash::quantize::unpack_ac;
use blurhash::quantize::unpack_dc;
use blurhash::BlurHashError;

#[test]
fn component_range_is_enforced() {
    assert_eq!(
        validate_components(0, 4),
        Err(BlurHashError::InvalidComponentRange)
    );
    assert_eq!(
        validate_components(10, 4),
        Err(BlurHashError::InvalidComponentRange)
    );
    assert_eq!(
        validate_components(4, 0),
        Err(BlurHashError::InvalidComponentRange)
    );
    assert_eq!(
        validate_components(4, 10),
        Err(BlurHashError::InvalidComponentRange)
    );
    assert_eq!(validate_components(1, 1), Ok(()));
    assert_eq!(validate_components(9, 9), Ok(()));
    assert_eq!(validate_components(4, 4), Ok(()));
}

#[test]
fn hash_length_law() {
    for x in 1..=9u32 {
        for y in 1..=9u32 {
            let ac: Vec<u32> = vec![0; (x * y - 1) as usize];
            let hash = assemble_hash(x, y, 0, 0, &ac);
            assert_eq!(hash.len() as u32, 4 + 2 * x * y);
        }
    }
}

#[test]
fn one_by_one_hash_has_no_ac_segment() {
    let ac: Vec<u32> = vec![];
    let hash = assemble_hash(1, 1, 0, 0, &ac);
    assert_eq!(hash.len(), 6);
    assert_eq!(hash, "000000");
    let hash = assemble_hash(1, 1, 82, 16777215, &ac);
    assert_eq!(hash, "0~TSUA");
}

#[test]
fn assembly_is_deterministic() {
    let ac: Vec<u32> = vec![3, 6889 - 1, 42];
    let first = assemble_hash(2, 2, 17, 123456, &ac);
    let second = assemble_hash(2, 2, 17, 123456, &ac);
    assert_eq!(first, second);
}

#[test]
fn assembled_size_flag_is_positional() {
    // x = 4, y = 4 gives flag 3 + 3 * 9 = 30, character 'U'.
    let ac: Vec<u32> = vec![0; 15];
    let hash = assemble_hash(4, 4, 0, 0, &ac);
    assert_eq!(hash.chars().next(), Some('U'));
}

#[test]
fn parse_recovers_assembled_parts() {
    let ac: Vec<u32> = vec![100, 200, 300, 400, 500, 600, 700];
    let hash = assemble_hash(4, 2, 25, 9_999_999, &ac);
    let parts = parse_hash(&hash).expect("well-formed hash must parse");
    assert_eq!(parts.x_components, 4);
    assert_eq!(parts.y_components, 2);
    assert_eq!(parts.quantised_max, 25);
    assert_eq!(parts.dc, 9_999_999);
    assert_eq!(parts.ac, ac);
}

#[test]
fn malformed_wrong_length_is_rejected() {
    // A 1x1 flag demands six characters.
    assert_eq!(
        parse_hash(&String::from("00000")),
        Err(BlurHashError::MalformedHash)
    );
    assert_eq!(
        parse_hash(&String::from("0000000")),
        Err(BlurHashError::MalformedHash)
    );
    assert_eq!(parse_hash(&String::from("")), Err(BlurHashError::MalformedHash));
}

#[test]
fn malformed_foreign_character_is_rejected() {
    // Right length for a 1x1 flag, but a character outside the alphabet.
    assert_eq!(
        parse_hash(&String::from("000!00")),
        Err(BlurHashError::MalformedHash)
    );
    // A foreign character in the size flag itself.
    assert_eq!(
        parse_hash(&String::from("!00000")),
        Err(BlurHashError::MalformedHash)
    );
}

#[test]
fn validate_checks_the_length_law() {
    assert!(validate(&String::from("000000")));
    assert!(!validate(&String::from("00000")));
    assert!(!validate(&String::from("")));
    assert!(!validate(&String::from("!00000")));
    let ac: Vec<u32> = vec![0; 15];
    assert!(validate(&assemble_hash(4, 4, 0, 0, &ac)));
}

#[test]
fn largest_grid_round_trips() {
    let ac: Vec<u32> = vec![6888; 80];
    let hash = assemble_hash(9, 9, 82, 16777215, &ac);
    assert_eq!(hash.len(), 166);
    let parts = parse_hash(&hash).expect("well-formed hash must parse");
    assert_eq!(parts.x_components, 9);
    assert_eq!(parts.y_components, 9);
    assert_eq!(parts.quantised_max, 82);
    assert_eq!(parts.dc, 16777215);
    assert_eq!(parts.ac, ac);
}

#[test]
fn dc_is_read_as_a_24_bit_integer() {
    // Four characters can denote more than 24 bits; the high byte is
    // taken modulo 256.
    assert_eq!(unpack_dc(0x1FF00FF), (255, 0, 255));
}

#[test]
fn dc_packing_round_trips() {
    assert_eq!(pack_dc(255, 0, 255), 0xFF00FF);
    assert_eq!(pack_dc(200, 100, 50), 200 * 65536 + 100 * 256 + 50);
    assert_eq!(unpack_dc(0xFF00FF), (255, 0, 255));
    assert_eq!(unpack_dc(pack_dc(12, 34, 56)), (12, 34, 56));
}

#[test]
fn ac_packing_round_trips() {
    assert_eq!(pack_ac(18, 18, 18), 6858);
    assert_eq!(pack_ac(0, 0, 0), 0);
    assert_eq!(pack_ac(9, 9, 9), 9 * 361 + 9 * 19 + 9);
    assert_eq!(unpack_ac(6858), (18, 18, 18));
    assert_eq!(unpack_ac(pack_ac(7, 11, 3)), (7, 11, 3));
}

#[test]
fn clamps_cut_to_their_ranges() {
    assert_eq!(clamp_ac_digit(-5), 0);
    assert_eq!(clamp_ac_digit(0), 0);
    assert_eq!(clamp_ac_digit(9), 9);
    assert_eq!(clamp_ac_digit(18), 18);
    assert_eq!(clamp_ac_digit(19), 18);
    assert_eq!(clamp_quantised_max(-1), 0);
    assert_eq!(clamp_quantised_max(40), 40);
    assert_eq!(clamp_quantised_max(82), 82);
    assert_eq!(clamp_quantised_max(100), 82);
}
