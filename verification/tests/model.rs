use pycrockford_rs::{decode_crockford_to_bytes, encode_bytes_to_crockford, CrockfordError};

const SYMBOLS: &[u8] = b"0123456789ABCDEFGHJKMNPQRSTVWXYZ";

#[derive(Debug, PartialEq, Eq)]
enum Expected {
    Bytes([u8; 16]),
    InvalidLength(usize),
    DecodeError,
}

struct Lcg(u64);

impl Lcg {
    fn next(&mut self) -> u64 {
        self.0 = self.0.wrapping_mul(6364136223846793005).wrapping_add(1442695040888963407);
        self.0 >> 33
    }

    fn below(&mut self, bound: u64) -> u64 {
        self.next() % bound
    }
}

fn value_of(c: char) -> Option<u8> {
    match c.to_ascii_uppercase() {
        'O' => Some(0),
        'I' | 'L' => Some(1),
        u if u.is_ascii() => SYMBOLS.iter().position(|s| *s == u as u8).map(|v| v as u8),
        _ => None,
    }
}

fn bits_to_text(bytes: &[u8; 16]) -> String {
    let mut bits = Vec::new();
    for byte in bytes {
        for k in (0..8).rev() {
            bits.push((byte >> k) & 1);
        }
    }
    bits.push(0);
    bits.push(0);
    bits.chunks(5)
        .map(|group| SYMBOLS[group.iter().fold(0usize, |v, bit| v * 2 + *bit as usize)] as char)
        .collect()
}

fn expected(text: &str) -> Expected {
    let mut digits = Vec::new();
    let mut foreign = false;
    for c in text.chars() {
        if c == '-' {
            continue;
        }
        match value_of(c) {
            Some(value) => digits.push(value),
            None => foreign = true,
        }
    }
    if foreign {
        return Expected::DecodeError;
    }
    let held = digits.len() * 5 / 8;
    if held != 16 {
        return Expected::InvalidLength(held);
    }
    if digits.len() != 26 {
        return Expected::DecodeError;
    }
    let mut bits = Vec::new();
    for digit in &digits {
        for k in (0..5).rev() {
            bits.push((digit >> k) & 1);
        }
    }
    if bits[128] != 0 || bits[129] != 0 {
        return Expected::DecodeError;
    }
    let mut bytes = [0u8; 16];
    for (i, byte) in bytes.iter_mut().enumerate() {
        *byte = bits[8 * i..8 * i + 8].iter().fold(0u8, |v, bit| v * 2 + bit);
    }
    Expected::Bytes(bytes)
}

fn observed(text: &str) -> Expected {
    match decode_crockford_to_bytes(text) {
        Ok(bytes) => Expected::Bytes(bytes),
        Err(CrockfordError::InvalidLength(len)) => Expected::InvalidLength(len),
        Err(CrockfordError::DecodeError(_)) => Expected::DecodeError,
    }
}

fn random_bytes(rng: &mut Lcg) -> [u8; 16] {
    let mut bytes = [0u8; 16];
    for byte in bytes.iter_mut() {
        *byte = rng.below(256) as u8;
    }
    bytes
}

#[test]
fn encoding_agrees_with_bit_groups() {
    let mut rng = Lcg(1);
    for _ in 0..5_000 {
        let bytes = random_bytes(&mut rng);
        assert_eq!(encode_bytes_to_crockford(&bytes), bits_to_text(&bytes));
    }
}

#[test]
fn random_bytes_round_trip() {
    let mut rng = Lcg(2);
    for _ in 0..5_000 {
        let bytes = random_bytes(&mut rng);
        let text = encode_bytes_to_crockford(&bytes);
        assert_eq!(decode_crockford_to_bytes(&text), Ok(bytes));
        assert_eq!(decode_crockford_to_bytes(&text.to_lowercase()), Ok(bytes));
    }
}

#[test]
fn decoding_agrees_on_disguised_text() {
    let mut rng = Lcg(3);
    for _ in 0..5_000 {
        let bytes = random_bytes(&mut rng);
        let mut text = String::new();
        for c in encode_bytes_to_crockford(&bytes).chars() {
            while rng.below(5) == 0 {
                text.push('-');
            }
            let c = match (c, rng.below(4)) {
                ('1', 0) => 'I',
                ('1', 1) => 'l',
                ('1', 2) => 'i',
                ('1', _) => 'L',
                ('0', 0) => 'o',
                ('0', 1) => 'O',
                (c, 2) => c.to_ascii_lowercase(),
                (c, _) => c,
            };
            text.push(c);
        }
        if rng.below(2) == 0 {
            text.push('-');
        }
        assert_eq!(expected(&text), Expected::Bytes(bytes));
        assert_eq!(observed(&text), Expected::Bytes(bytes));
    }
}

#[test]
fn decoding_agrees_on_random_text() {
    let pool: Vec<char> =
        "0123456789ABCDEFGHJKMNPQRSTVWXYZabcdefghjkmnpqrstvwxyziIlLoO----uU* \u{e9}".chars().collect();
    let common: Vec<char> = "0123456789ABCDEFGHJKMNPQRSTVWXYZabcdefghjkmnpqrstvwxyziIlLoO---".chars().collect();
    let mut rng = Lcg(4);
    let mut seen = [0usize; 3];
    for round in 0..20_000 {
        let len = if round % 2 == 0 { 20 + rng.below(16) } else { rng.below(60) };
        let text: String = (0..len)
            .map(|_| {
                if rng.below(40) == 0 {
                    pool[rng.below(pool.len() as u64) as usize]
                } else {
                    common[rng.below(common.len() as u64) as usize]
                }
            })
            .collect();
        let want = expected(&text);
        match want {
            Expected::Bytes(_) => seen[0] += 1,
            Expected::InvalidLength(_) => seen[1] += 1,
            Expected::DecodeError => seen[2] += 1,
        }
        assert_eq!(observed(&text), want, "text {:?}", text);
    }
    assert!(seen.iter().all(|count| *count > 100), "{:?}", seen);
}

#[test]
fn decoding_agrees_on_every_short_text() {
    let pool = ['0', '1', 'Z', 'z', 'i', 'O', '-', 'U', '*'];
    let mut texts = vec![String::new()];
    for _ in 0..4 {
        let mut longer = Vec::new();
        for text in &texts {
            for c in pool {
                let mut next = text.clone();
                next.push(c);
                longer.push(next);
            }
        }
        for text in &longer {
            assert_eq!(observed(text), expected(text), "text {:?}", text);
        }
        texts = longer;
    }
}

#[test]
fn decoding_agrees_near_the_right_length() {
    let mut rng = Lcg(5);
    for count in 24..=30 {
        for _ in 0..500 {
            let mut text = String::new();
            for _ in 0..count {
                if rng.below(6) == 0 {
                    text.push('-');
                }
                text.push(SYMBOLS[rng.below(32) as usize] as char);
            }
            if count == 26 && rng.below(2) == 0 {
                text.pop();
                text.push(SYMBOLS[(rng.below(8) * 4) as usize] as char);
            }
            assert_eq!(observed(&text), expected(&text), "text {:?}", text);
        }
    }
}

#[test]
fn text_sorts_as_bytes_do() {
    let mut rng = Lcg(6);
    for round in 0..5_000 {
        let a = random_bytes(&mut rng);
        let mut b = random_bytes(&mut rng);
        let shared = (round % 17) as usize;
        b[..shared.min(16)].copy_from_slice(&a[..shared.min(16)]);
        let text_a = encode_bytes_to_crockford(&a);
        let text_b = encode_bytes_to_crockford(&b);
        assert_eq!(a.cmp(&b), text_a.cmp(&text_b));
    }
}
