use nthash::NtHashIterator;

const HASH_LOOKUP: [u64; 4] = [
    0x3c8b_fbb3_95c6_0474,
    0x3193_c185_62a0_2b4c,
    0x2955_49f5_4be2_4456,
    0x2032_3ed0_8257_2324,
];
const RC_HASH_LOOKUP: [u64; 4] = [
    0x2955_49f5_4be2_4456,
    0x2032_3ed0_8257_2324,
    0x3c8b_fbb3_95c6_0474,
    0x3193_c185_62a0_2b4c,
];
const MULTISEED: u64 = 0x90b4_5d39_fb6d_a1fa;

/// Two-bit encoding of a nucleotide: A=0, C=1, T=2, G=3.
fn encode(base: char) -> u8 {
    match base {
        'A' => 0,
        'C' => 1,
        'T' => 2,
        'G' => 3,
        _ => panic!("not a nucleotide"),
    }
}

fn encode_str(s: &str) -> Vec<u8> {
    s.chars().map(encode).collect()
}

/// The forward hash written directly as the XOR-of-rotated-seeds formula.
fn formula_fwd(window: &[u8]) -> u64 {
    let k = window.len();
    let mut h = 0u64;
    for (i, &c) in window.iter().enumerate() {
        h ^= HASH_LOOKUP[c as usize].rotate_left((k - i - 1) as u32);
    }
    h
}

/// The reverse-complement hash written directly as the same formula read
/// over the window in reverse with the reverse-complement seeds.
fn formula_rc(window: &[u8]) -> u64 {
    let k = window.len();
    let mut h = 0u64;
    for (i, &c) in window.iter().rev().enumerate() {
        h ^= RC_HASH_LOOKUP[c as usize].rotate_left((k - i - 1) as u32);
    }
    h
}

fn revcomp(codes: &[u8]) -> Vec<u8> {
    codes.iter().rev().map(|&c| c ^ 2).collect()
}

#[test]
fn definitional_literal_acgt() {
    let w = encode_str("ACGT");
    let it = NtHashIterator::new(&w, 4, false);
    assert_eq!(it.curr_hash(), formula_fwd(&w));
    assert_eq!(it.curr_hash(), 0x4b21_efdd_6bfc_8c8f);
}

#[test]
fn definitional_every_window() {
    let s = encode_str("GATTACAGATTACACCGT");
    for k in 1..=6 {
        for p in 0..=(s.len() - k) {
            let w = &s[p..p + k];
            let it = NtHashIterator::new(w, k, false);
            assert_eq!(it.curr_hash(), formula_fwd(w), "window at {p} size {k}");
        }
    }
}

#[test]
fn roll_matches_reinit() {
    let s = encode_str("ACGTACGTTAGCAGCC");
    let k: usize = 4;
    let mut it = NtHashIterator::new(&s[0..k], k, false);
    for p in 0..(s.len() - k) {
        it.roll_fwd(s[p], s[p + k]);
        let fresh = NtHashIterator::new(&s[p + 1..p + 1 + k], k, false);
        assert_eq!(it.curr_hash(), fresh.curr_hash(), "after roll at {p}");
    }
}

#[test]
fn roll_matches_reinit_canonical() {
    let s = encode_str("TTGACCAGTAGGCATA");
    let k: usize = 5;
    let mut it = NtHashIterator::new(&s[0..k], k, true);
    for p in 0..(s.len() - k) {
        it.roll_fwd(s[p], s[p + k]);
        let fresh = NtHashIterator::new(&s[p + 1..p + 1 + k], k, true);
        assert_eq!(it.curr_hash(), fresh.curr_hash(), "after roll at {p}");
    }
}

#[test]
fn roll_matches_reinit_wide_window() {
    // A window wider than the 64-bit word: rotation amounts wrap around.
    let mut s = Vec::new();
    for i in 0..80usize {
        s.push(((i * 7 + 3) % 4) as u8);
    }
    let k: usize = 70;
    let mut it = NtHashIterator::new(&s[0..k], k, true);
    for p in 0..(s.len() - k) {
        it.roll_fwd(s[p], s[p + k]);
        let fresh = NtHashIterator::new(&s[p + 1..p + 1 + k], k, true);
        assert_eq!(it.curr_hash(), fresh.curr_hash(), "after roll at {p}");
    }
}

#[test]
fn reverse_complement_consistency() {
    // The reverse-complement half of a canonical state equals the forward
    // hash of the reverse-complement window, so the canonical hash is the
    // smaller of the two forward hashes.
    for s in ["ACGT", "AAAAA", "GATTACA", "CCGTAGGT"] {
        let w = encode_str(s);
        let rc = revcomp(&w);
        let k = w.len();
        assert_eq!(formula_rc(&w), formula_fwd(&rc), "formula cross-check {s}");
        let canonical = NtHashIterator::new(&w, k, true);
        let fwd = NtHashIterator::new(&w, k, false);
        let fwd_of_rc = NtHashIterator::new(&rc, k, false);
        assert_eq!(
            canonical.curr_hash(),
            fwd.curr_hash().min(fwd_of_rc.curr_hash()),
            "canonical is min of the two strands for {s}"
        );
    }
}

#[test]
fn canonical_scan_symmetry() {
    // Scanning a sequence and scanning its reverse complement yield the
    // same canonical hashes, at mirrored window positions.
    let s = encode_str("ACCGTAGGATTCAG");
    let rc = revcomp(&s);
    let k: usize = 4;
    let scan = |seq: &[u8]| -> Vec<u64> {
        let mut out = Vec::new();
        let mut it = NtHashIterator::new(&seq[0..k], k, true);
        out.push(it.curr_hash());
        for p in 0..(seq.len() - k) {
            it.roll_fwd(seq[p], seq[p + k]);
            out.push(it.curr_hash());
        }
        out
    };
    let forward_values = scan(&s);
    let mut mirrored = scan(&rc);
    mirrored.reverse();
    assert_eq!(forward_values, mirrored);
}

#[test]
fn extra_hash_deterministic() {
    let w = encode_str("GATTACA");
    let a = NtHashIterator::new(&w, 7, true);
    for i in 0..8 {
        assert_eq!(a.extra_hash(i), a.extra_hash(i), "same state, same index");
    }
    // A state reached by rolling gives the same derived hashes as a fresh
    // one, because they share the current hash, the index and k.
    let s = encode_str("TGATTACA");
    let mut rolled = NtHashIterator::new(&s[0..7], 7, true);
    rolled.roll_fwd(s[0], s[7]);
    for i in 0..8 {
        assert_eq!(a.extra_hash(i), rolled.extra_hash(i));
    }
}

#[test]
fn extra_hash_varies_with_index() {
    let w = encode_str("ACGTACGTAC");
    let it = NtHashIterator::new(&w, 10, false);
    let first = it.extra_hash(0);
    assert!(
        (0..8).any(|i| it.extra_hash(i) != first),
        "derived hashes collapsed to a single value"
    );
}

#[test]
fn extra_hash_literal() {
    let w = encode_str("ACGT");
    let it = NtHashIterator::new(&w, 4, false);
    assert_eq!(it.extra_hash(0), 0xfff5_594e_a503_e0b3);
    assert_eq!(it.extra_hash(1), 0xfff2_afba_4cc7_0988);
    assert_eq!(it.extra_hash(2), 0xfff0_05e5_f77d_90a5);
    // and the value matches the wrapping formula
    let cur = it.curr_hash();
    for i in 0..8usize {
        let expected = {
            let nh = cur.wrapping_mul(MULTISEED.wrapping_mul((i ^ 4) as u64));
            nh ^ (nh >> 27)
        };
        assert_eq!(it.extra_hash(i), expected);
    }
}

#[test]
fn literal_end_to_end() {
    // Sequence ACGTACGT, k = 4: initialise on ACGT, roll out the leading A
    // and roll in the A at position 4; the hash must equal a fresh hash of
    // CGTA.
    let s = encode_str("ACGTACGT");
    let mut it = NtHashIterator::new(&s[0..4], 4, false);
    it.roll_fwd(encode('A'), s[4]);
    let fresh = NtHashIterator::new(&encode_str("CGTA"), 4, false);
    assert_eq!(it.curr_hash(), fresh.curr_hash());
    assert_eq!(it.curr_hash(), 0x6277_9f30_1e5f_5a29);
}

#[test]
fn palindromic_window_has_equal_strands() {
    // ACGT is its own reverse complement, so both strand hashes agree and
    // the canonical hash equals the plain forward hash.
    let w = encode_str("ACGT");
    let canonical = NtHashIterator::new(&w, 4, true);
    let fwd = NtHashIterator::new(&w, 4, false);
    assert_eq!(canonical.curr_hash(), fwd.curr_hash());
}
