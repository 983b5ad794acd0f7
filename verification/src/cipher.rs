//! The cipher engine: each input word's position is moved forward
//! (encrypting) or back (decrypting) by the shift value at its place in the
//! key, modulo the wordlist size.

use vstd::arithmetic::div_mod::lemma_add_mod_noop_right;
use vstd::arithmetic::div_mod::lemma_mod_add_multiples_vanish;
use vstd::arithmetic::div_mod::lemma_mod_bound;
use vstd::arithmetic::div_mod::lemma_small_mod;
use vstd::prelude::*;

use crate::error::OtpError;
use crate::words::WordIndex;
use crate::words::distinct_words;
use crate::words::lemma_word_index_of_member;
use crate::words::lemma_word_index_some;
use crate::words::views_of;
use crate::words::word_index;

verus! {

/// One processed word: the canonical input word and its transformed
/// counterpart.
#[derive(Debug, Clone)]
pub struct EncryptedMessage {
    pub message: String,
    pub cipher_text: String,
}

/// The canonical input words of a batch of entries.
pub open spec fn messages_of(entries: Seq<EncryptedMessage>) -> Seq<Seq<char>> {
    entries.map_values(|entry: EncryptedMessage| entry.message@)
}

/// The transformed words of a batch of entries.
pub open spec fn ciphers_of(entries: Seq<EncryptedMessage>) -> Seq<Seq<char>> {
    entries.map_values(|entry: EncryptedMessage| entry.cipher_text@)
}

/// The position a word at `pos` encrypts to under a shift value.
pub open spec fn enc_position(n: int, pos: int, shift: u16) -> int
    recommends
        n > 0,
{
    (pos + shift) % n
}

/// The position a word at `pos` decrypts to under a shift value: the
/// modular inverse move of `enc_position`, computed without a negative
/// intermediate value.
pub open spec fn dec_position(n: int, pos: int, shift: u16) -> int
    recommends
        n > 0,
{
    (pos + n - (shift as int) % n) % n
}

/// Whether every word of a batch occurs in the wordlist.
pub open spec fn all_known(wordlist: Seq<Seq<char>>, words: Seq<Seq<char>>) -> bool {
    forall|i: int| 0 <= i < words.len() ==> #[trigger] word_index(wordlist, words[i]) is Some
}

/// The first position of a batch whose word is not in the wordlist.
pub open spec fn first_unknown(wordlist: Seq<Seq<char>>, words: Seq<Seq<char>>) -> int
    decreases words.len(),
{
    if words.len() == 0 {
        0
    } else if word_index(wordlist, words[0]) is None {
        0
    } else {
        1 + first_unknown(wordlist, words.drop_first())
    }
}

/// The word a failing batch is refused for: the one at the first position
/// whose word is not in the wordlist.
pub open spec fn unknown_word_at(wordlist: Seq<Seq<char>>, words: Seq<Seq<char>>) -> Seq<char> {
    words[first_unknown(wordlist, words)]
}

/// The words a batch encrypts to.
pub open spec fn encrypted_seq(
    wordlist: Seq<Seq<char>>,
    shifts: Seq<u16>,
    words: Seq<Seq<char>>,
) -> Seq<Seq<char>>
    recommends
        wordlist.len() > 0 || words.len() == 0,
        all_known(wordlist, words),
        words.len() <= shifts.len(),
{
    Seq::new(
        words.len(),
        |i: int|
            wordlist[enc_position(
                wordlist.len() as int,
                word_index(wordlist, words[i])->0,
                shifts[i],
            )],
    )
}

/// The words a batch decrypts to.
pub open spec fn decrypted_seq(
    wordlist: Seq<Seq<char>>,
    shifts: Seq<u16>,
    words: Seq<Seq<char>>,
) -> Seq<Seq<char>>
    recommends
        wordlist.len() > 0 || words.len() == 0,
        all_known(wordlist, words),
        words.len() <= shifts.len(),
{
    Seq::new(
        words.len(),
        |i: int|
            wordlist[dec_position(
                wordlist.len() as int,
                word_index(wordlist, words[i])->0,
                shifts[i],
            )],
    )
}

proof fn lemma_entries_push(entries: Seq<EncryptedMessage>, entry: EncryptedMessage)
    ensures
        messages_of(entries.push(entry)) =~= messages_of(entries).push(entry.message@),
        ciphers_of(entries.push(entry)) =~= ciphers_of(entries).push(entry.cipher_text@),
{
}

proof fn lemma_first_unknown_at(wordlist: Seq<Seq<char>>, words: Seq<Seq<char>>, i: int)
    requires
        0 <= i < words.len(),
        forall|j: int| 0 <= j < i ==> #[trigger] word_index(wordlist, words[j]) is Some,
        word_index(wordlist, words[i]) is None,
    ensures
        first_unknown(wordlist, words) == i,
    decreases i,
{
    if i > 0 {
        assert(word_index(wordlist, words[0]) is Some);
        assert(forall|j: int| 0 <= j < i - 1 ==> #[trigger] word_index(
            wordlist,
            words.drop_first()[j],
        ) is Some) by {
            assert(forall|j: int| 0 <= j < i - 1 ==> words.drop_first()[j] == words[j + 1]);
        }
        assert(words.drop_first()[i - 1] == words[i]);
        lemma_first_unknown_at(wordlist, words.drop_first(), i - 1);
    }
}

/// Encrypts a batch of words under the given key.  Fails before any word is
/// processed when the batch exceeds the key's capacity, and on the first
/// word that the wordlist does not carry.
pub fn encrypt(
    num_keys: usize,
    key_list: &Vec<u16>,
    word_list: &Vec<String>,
    word_to_idx: &WordIndex,
    words: &Vec<String>,
) -> (r: Result<Vec<EncryptedMessage>, OtpError>)
    requires
        word_to_idx@ == views_of(word_list@),
        key_list@.len() == num_keys,
    ensures
        words@.len() > num_keys ==> r == Err::<Vec<EncryptedMessage>, OtpError>(
            OtpError::TooManyWords,
        ),
        words@.len() <= num_keys && all_known(views_of(word_list@), views_of(words@)) ==> {
            &&& r is Ok
            &&& messages_of(r->Ok_0@) == views_of(words@)
            &&& ciphers_of(r->Ok_0@) == encrypted_seq(
                views_of(word_list@),
                key_list@,
                views_of(words@),
            )
        },
        words@.len() <= num_keys && !all_known(views_of(word_list@), views_of(words@)) ==> {
            &&& r is Err
            &&& r->Err_0 matches OtpError::UnknownWord(word) && word@ == unknown_word_at(
                views_of(word_list@),
                views_of(words@),
            )
        },
{
    let ghost wl = views_of(word_list@);
    let ghost ws = views_of(words@);
    if words.len() > num_keys {
        return Err(OtpError::TooManyWords);
    }
    let mut result: Vec<EncryptedMessage> = Vec::new();
    let mut i: usize = 0;
    while i < words.len()
        invariant
            wl == views_of(word_list@),
            ws == views_of(words@),
            word_to_idx@ == wl,
            key_list@.len() == num_keys,
            words@.len() <= num_keys,
            i <= words@.len(),
            forall|j: int| 0 <= j < i ==> #[trigger] word_index(wl, ws[j]) is Some,
            messages_of(result@) == ws.take(i as int),
            ciphers_of(result@) == encrypted_seq(wl, key_list@, ws).take(i as int),
        decreases words@.len() - i,
    {
        let word = &words[i];
        proof {
            assert(word@ == ws[i as int]);
        }
        match word_to_idx.get(word) {
            None => {
                proof {
                    lemma_first_unknown_at(wl, ws, i as int);
                }
                return Err(OtpError::UnknownWord(word.clone()));
            },
            Some(pos) => {
                proof {
                    lemma_word_index_some(wl, ws[i as int]);
                }
                let n = word_list.len();
                let shift = key_list[i];
                let s = (shift as usize) % n;
                let target = if pos < n - s {
                    pos + s
                } else {
                    pos - (n - s)
                };
                proof {
                    lemma_mod_bound(shift as int, n as int);
                    lemma_add_mod_noop_right(pos as int, shift as int, n as int);
                    if pos + s < n {
                        lemma_small_mod((pos + s) as nat, n as nat);
                    } else {
                        lemma_mod_add_multiples_vanish(pos + s - n, n as int);
                        lemma_small_mod((pos + s - n) as nat, n as nat);
                    }
                    assert(target == enc_position(n as int, pos as int, shift));
                }
                let entry = EncryptedMessage {
                    message: word_list[pos].clone(),
                    cipher_text: word_list[target].clone(),
                };
                let ghost prev = result@;
                let ghost entry_view = entry;
                result.push(entry);
                proof {
                    lemma_entries_push(prev, entry_view);
                    assert(wl[pos as int] == ws[i as int]);
                    assert(messages_of(result@) =~= ws.take(i + 1));
                    assert(ciphers_of(result@) =~= encrypted_seq(wl, key_list@, ws).take(i + 1));
                }
            },
        }
        i = i + 1;
    }
    proof {
        assert(ws.take(i as int) =~= ws);
        assert(encrypted_seq(wl, key_list@, ws).take(i as int) =~= encrypted_seq(
            wl,
            key_list@,
            ws,
        ));
    }
    Ok(result)
}

/// Decrypts a batch of words under the given key: the exact inverse move of
/// `encrypt`, with the same capacity and unknown-word failures.
pub fn decrypt(
    num_keys: usize,
    key_list: &Vec<u16>,
    word_list: &Vec<String>,
    word_to_idx: &WordIndex,
    words: &Vec<String>,
) -> (r: Result<Vec<EncryptedMessage>, OtpError>)
    requires
        word_to_idx@ == views_of(word_list@),
        key_list@.len() == num_keys,
    ensures
        words@.len() > num_keys ==> r == Err::<Vec<EncryptedMessage>, OtpError>(
            OtpError::TooManyWords,
        ),
        words@.len() <= num_keys && all_known(views_of(word_list@), views_of(words@)) ==> {
            &&& r is Ok
            &&& messages_of(r->Ok_0@) == views_of(words@)
            &&& ciphers_of(r->Ok_0@) == decrypted_seq(
                views_of(word_list@),
                key_list@,
                views_of(words@),
            )
        },
        words@.len() <= num_keys && !all_known(views_of(word_list@), views_of(words@)) ==> {
            &&& r is Err
            &&& r->Err_0 matches OtpError::UnknownWord(word) && word@ == unknown_word_at(
                views_of(word_list@),
                views_of(words@),
            )
        },
{
    let ghost wl = views_of(word_list@);
    let ghost ws = views_of(words@);
    if words.len() > num_keys {
        return Err(OtpError::TooManyWords);
    }
    let mut result: Vec<EncryptedMessage> = Vec::new();
    let mut i: usize = 0;
    while i < words.len()
        invariant
            wl == views_of(word_list@),
            ws == views_of(words@),
            word_to_idx@ == wl,
            key_list@.len() == num_keys,
            words@.len() <= num_keys,
            i <= words@.len(),
            forall|j: int| 0 <= j < i ==> #[trigger] word_index(wl, ws[j]) is Some,
            messages_of(result@) == ws.take(i as int),
            ciphers_of(result@) == decrypted_seq(wl, key_list@, ws).take(i as int),
        decreases words@.len() - i,
    {
        let word = &words[i];
        proof {
            assert(word@ == ws[i as int]);
        }
        match word_to_idx.get(word) {
            None => {
                proof {
                    lemma_first_unknown_at(wl, ws, i as int);
                }
                return Err(OtpError::UnknownWord(word.clone()));
            },
            Some(pos) => {
                proof {
                    lemma_word_index_some(wl, ws[i as int]);
                }
                let n = word_list.len();
                let shift = key_list[i];
                let s = (shift as usize) % n;
                let target = if pos >= s {
                    pos - s
                } else {
                    pos + (n - s)
                };
                proof {
                    lemma_mod_bound(shift as int, n as int);
                    if pos >= s {
                        lemma_mod_add_multiples_vanish(pos - s, n as int);
                        lemma_small_mod((pos - s) as nat, n as nat);
                    } else {
                        lemma_small_mod((pos + n - s) as nat, n as nat);
                    }
                    assert(target == dec_position(n as int, pos as int, shift));
                }
                let entry = EncryptedMessage {
                    message: word_list[pos].clone(),
                    cipher_text: word_list[target].clone(),
                };
                let ghost prev = result@;
                let ghost entry_view = entry;
                result.push(entry);
                proof {
                    lemma_entries_push(prev, entry_view);
                    assert(wl[pos as int] == ws[i as int]);
                    assert(messages_of(result@) =~= ws.take(i + 1));
                    assert(ciphers_of(result@) =~= decrypted_seq(wl, key_list@, ws).take(i + 1));
                }
            },
        }
        i = i + 1;
    }
    proof {
        assert(ws.take(i as int) =~= ws);
        assert(decrypted_seq(wl, key_list@, ws).take(i as int) =~= decrypted_seq(
            wl,
            key_list@,
            ws,
        ));
    }
    Ok(result)
}

proof fn lemma_shift_cancels(n: int, pos: int, shift: u16)
    requires
        n > 0,
        0 <= pos < n,
    ensures
        dec_position(n, enc_position(n, pos, shift), shift) == pos,
{
    let s = (shift as int) % n;
    lemma_mod_bound(shift as int, n);
    lemma_add_mod_noop_right(pos, shift as int, n);
    if pos + s < n {
        lemma_small_mod((pos + s) as nat, n as nat);
        assert(enc_position(n, pos, shift) == pos + s);
        lemma_mod_add_multiples_vanish(pos, n);
        lemma_small_mod(pos as nat, n as nat);
    } else {
        lemma_mod_add_multiples_vanish(pos + s - n, n);
        lemma_small_mod((pos + s - n) as nat, n as nat);
        assert(enc_position(n, pos, shift) == pos + s - n);
        lemma_small_mod(pos as nat, n as nat);
    }
}

/// Round trip: decrypting what a batch encrypts to, under the same key and
/// a wordlist without duplicate words, gives back exactly the input words.
pub proof fn lemma_round_trip(wordlist: Seq<Seq<char>>, shifts: Seq<u16>, words: Seq<Seq<char>>)
    requires
        distinct_words(wordlist),
        all_known(wordlist, words),
        words.len() <= shifts.len(),
    ensures
        all_known(wordlist, encrypted_seq(wordlist, shifts, words)),
        decrypted_seq(wordlist, shifts, encrypted_seq(wordlist, shifts, words)) == words,
{
    let n = wordlist.len() as int;
    let enc = encrypted_seq(wordlist, shifts, words);
    assert forall|i: int| 0 <= i < enc.len() implies #[trigger] word_index(wordlist, enc[i])
        is Some by {
        lemma_word_index_some(wordlist, words[i]);
        lemma_mod_bound(word_index(wordlist, words[i])->0 + shifts[i], n);
        lemma_word_index_of_member(
            wordlist,
            enc_position(n, word_index(wordlist, words[i])->0, shifts[i]),
        );
    }
    let dec = decrypted_seq(wordlist, shifts, enc);
    assert forall|i: int| 0 <= i < words.len() implies dec[i] == words[i] by {
        let pos = word_index(wordlist, words[i])->0;
        lemma_word_index_some(wordlist, words[i]);
        let ep = enc_position(n, pos, shifts[i]);
        lemma_mod_bound(pos + shifts[i], n);
        lemma_word_index_of_member(wordlist, ep);
        assert(word_index(wordlist, enc[i]) == Some(ep));
        lemma_shift_cancels(n, pos, shifts[i]);
        assert(dec[i] == wordlist[pos]);
    }
    assert(dec =~= words);
}

} // verus!
