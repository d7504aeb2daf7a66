use vstd::prelude::*;

verus! {

/// The words of `w`, each as two bytes, low byte first.
pub open spec fn words_le(w: Seq<u16>) -> Seq<u8> {
    Seq::new(
        2 * w.len(),
        |k: int| if k % 2 == 0 { (w[k / 2] % 256) as u8 } else { (w[k / 2] / 256) as u8 },
    )
}

/// The little-endian word stored at bytes `2 * k` and `2 * k + 1` of `b`.
pub open spec fn word_at(b: Seq<u8>, k: int) -> u16 {
    (b[2 * k] as int + 256 * (b[2 * k + 1] as int)) as u16
}

/// Reading back the words written by `words_le` gives the words again,
/// whatever follows them.
pub proof fn lemma_word_at_words_le(w: Seq<u16>, rest: Seq<u8>, k: int)
    requires
        0 <= k < w.len(),
    ensures
        word_at(words_le(w) + rest, k) == w[k],
{
    let b = words_le(w) + rest;
    assert(b[2 * k] == (w[k] % 256) as u8);
    assert(b[2 * k + 1] == (w[k] / 256) as u8);
}

/// Appends the words of `w` to `v`, low byte first.
pub fn push_words(v: &mut Vec<u8>, w: &Vec<u16>)
    ensures
        final(v)@ == old(v)@ + words_le(w@),
{
    let ghost start = v@;
    let mut i: usize = 0;
    while i < w.len()
        invariant
            i <= w@.len(),
            v@ == start + words_le(w@.take(i as int)),
            start == old(v)@,
        decreases w@.len() - i,
    {
        let x = w[i];
        v.push((x % 256) as u8);
        v.push((x / 256) as u8);
        i = i + 1;
        assert(v@ =~= start + words_le(w@.take(i as int)));
    }
    assert(w@.take(w@.len() as int) =~= w@);
}

/// Reads the little-endian word at bytes `2 * k` and `2 * k + 1` of `b`.
pub fn read_word(b: &Vec<u8>, k: usize) -> (r: u16)
    requires
        2 * k + 1 < b@.len(),
        k < 0x4000,
    ensures
        r == word_at(b@, k as int),
{
    b[2 * k] as u16 + 256 * (b[2 * k + 1] as u16)
}

} // verus!
