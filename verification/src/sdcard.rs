//! The SD card: which file to play and which name a new recording gets.

use vstd::prelude::*;

use crate::hw::{check, HwError, HwOp};

verus! {

/// One entry of the card's root directory: its name (as UTF-8 bytes, with
/// invalid sequences replaced) and whether it is a regular file.
#[derive(Debug)]
pub struct DirEntry {
    pub name: Vec<u8>,
    pub is_file: bool,
}

/// Why no name for a new recording could be found.
#[derive(Debug, Clone, Copy, PartialEq, Eq, Structural)]
pub enum SdError {
    /// `REC_0001.WAV` to `REC_9999.WAV` all exist.
    AllRecordingNamesTaken,
}

/// The mounted SD card.
pub struct SdCard;

/// Highest number of a recording file.
pub const MAX_RECORDING_INDEX: u32 = 9999;

pub open spec fn is_dot(b: u8) -> bool {
    b == 0x2E
}

/// Whether a file name has the extension `wav` in any letter case: the text
/// after its last dot, where that dot is not the first character.
pub open spec fn has_wav_extension(name: Seq<u8>) -> bool {
    let n = name.len() as int;
    &&& n >= 5
    &&& is_dot(name[n - 4])
    &&& (name[n - 3] == 0x77 || name[n - 3] == 0x57)
    &&& (name[n - 2] == 0x61 || name[n - 2] == 0x41)
    &&& (name[n - 1] == 0x76 || name[n - 1] == 0x56)
}

/// A byte with ASCII lowercase letters made uppercase.
pub open spec fn upper(b: u8) -> u8 {
    if 0x61 <= b <= 0x7A {
        (b - 32) as u8
    } else {
        b
    }
}

/// The sort key of a name: the name in ASCII uppercase.
pub open spec fn sort_key(name: Seq<u8>) -> Seq<u8> {
    name.map_values(|b: u8| upper(b))
}

/// Lexicographic order of byte strings, a proper prefix first.
pub open spec fn lex_lt(a: Seq<u8>, b: Seq<u8>) -> bool
    decreases a.len(),
{
    if a.len() == 0 {
        b.len() > 0
    } else if b.len() == 0 {
        false
    } else if a[0] != b[0] {
        a[0] < b[0]
    } else {
        lex_lt(a.subrange(1, a.len() as int), b.subrange(1, b.len() as int))
    }
}

/// Whether an entry is a regular file with a `.wav` extension.
pub open spec fn is_wav_entry(e: DirEntry) -> bool {
    e.is_file && has_wav_extension(e.name@)
}

/// Whether entry `i` comes first among the WAV files when they are sorted by
/// their uppercase names, ties kept in directory order.
pub open spec fn is_first_wav(entries: Seq<DirEntry>, i: int) -> bool {
    &&& 0 <= i < entries.len()
    &&& is_wav_entry(entries[i])
    &&& forall|j: int|
        0 <= j < entries.len() && is_wav_entry(#[trigger] entries[j]) ==> !lex_lt(
            sort_key(entries[j].name@),
            sort_key(entries[i].name@),
        )
    &&& forall|j: int|
        0 <= j < i && is_wav_entry(#[trigger] entries[j]) ==> lex_lt(
            sort_key(entries[i].name@),
            sort_key(entries[j].name@),
        )
}

/// Whether a file name has the extension `wav`, ignoring letter case.
pub fn is_wav_name(name: &[u8]) -> (r: bool)
    ensures
        r == has_wav_extension(name@),
{
    let n = name.len();
    if n < 5 {
        return false;
    }
    name[n - 4] == 0x2E && (name[n - 3] == 0x77 || name[n - 3] == 0x57) && (name[n - 2] == 0x61
        || name[n - 2] == 0x41) && (name[n - 1] == 0x76 || name[n - 1] == 0x56)
}

fn upper_byte(b: u8) -> (r: u8)
    ensures
        r == upper(b),
{
    if 0x61 <= b && b <= 0x7A {
        b - 32
    } else {
        b
    }
}

proof fn lemma_lex_lt_irreflexive(a: Seq<u8>)
    ensures
        !lex_lt(a, a),
    decreases a.len(),
{
    if a.len() > 0 {
        lemma_lex_lt_irreflexive(a.subrange(1, a.len() as int));
    }
}

proof fn lemma_lex_lt_total(a: Seq<u8>, b: Seq<u8>)
    ensures
        a != b ==> lex_lt(a, b) || lex_lt(b, a),
        !(lex_lt(a, b) && lex_lt(b, a)),
    decreases a.len(),
{
    if a.len() > 0 && b.len() > 0 && a[0] == b[0] {
        let a1 = a.subrange(1, a.len() as int);
        let b1 = b.subrange(1, b.len() as int);
        lemma_lex_lt_total(a1, b1);
        if a1 == b1 {
            assert(a =~= seq![a[0]] + a1);
            assert(b =~= seq![b[0]] + b1);
        }
    } else if a.len() == 0 && b.len() == 0 {
        assert(a =~= b);
    }
}

proof fn lemma_lex_lt_transitive(a: Seq<u8>, b: Seq<u8>, c: Seq<u8>)
    requires
        lex_lt(a, b),
        lex_lt(b, c),
    ensures
        lex_lt(a, c),
    decreases a.len(),
{
    if a.len() > 0 && b.len() > 0 && c.len() > 0 && a[0] == b[0] && b[0] == c[0] {
        lemma_lex_lt_transitive(
            a.subrange(1, a.len() as int),
            b.subrange(1, b.len() as int),
            c.subrange(1, c.len() as int),
        );
    }
}

/// Compares the uppercase forms of two names.
fn key_less(a: &[u8], b: &[u8]) -> (r: bool)
    ensures
        r == lex_lt(sort_key(a@), sort_key(b@)),
{
    let ghost ka = sort_key(a@);
    let ghost kb = sort_key(b@);
    let mut i: usize = 0;
    assert(ka.subrange(0, ka.len() as int) =~= ka);
    assert(kb.subrange(0, kb.len() as int) =~= kb);
    while i < a.len() && i < b.len()
        invariant
            i <= a@.len(),
            i <= b@.len(),
            ka == sort_key(a@),
            kb == sort_key(b@),
            lex_lt(ka, kb) == lex_lt(
                ka.subrange(i as int, ka.len() as int),
                kb.subrange(i as int, kb.len() as int),
            ),
        decreases a.len() - i,
    {
        let x = upper_byte(a[i]);
        let y = upper_byte(b[i]);
        let ghost ra = ka.subrange(i as int, ka.len() as int);
        let ghost rb = kb.subrange(i as int, kb.len() as int);
        assert(ra[0] == x);
        assert(rb[0] == y);
        if x != y {
            return x < y;
        }
        assert(ra.subrange(1, ra.len() as int) =~= ka.subrange(i + 1, ka.len() as int));
        assert(rb.subrange(1, rb.len() as int) =~= kb.subrange(i + 1, kb.len() as int));
        i = i + 1;
    }
    let ghost ra = ka.subrange(i as int, ka.len() as int);
    let ghost rb = kb.subrange(i as int, kb.len() as int);
    if i < b.len() {
        assert(ra.len() == 0 && rb.len() > 0);
        true
    } else {
        assert(rb.len() == 0);
        false
    }
}

/// The file name `REC_NNNN.WAV` of recording number `index`, with four digits.
pub open spec fn recording_name(index: u32) -> Seq<u8> {
    seq![0x52u8, 0x45u8, 0x43u8, 0x5Fu8] + seq![
        (0x30 + index / 1000 % 10) as u8,
        (0x30 + index / 100 % 10) as u8,
        (0x30 + index / 10 % 10) as u8,
        (0x30 + index % 10) as u8,
    ] + seq![0x2Eu8, 0x57u8, 0x41u8, 0x56u8]
}

/// The search for the name of a new recording: candidate `index` is tried
/// next, from `REC_0001.WAV` upward.
#[derive(Debug, Clone, Copy, PartialEq, Eq, Structural)]
pub struct RecordingPathSearch {
    pub index: u32,
}

impl RecordingPathSearch {
    /// The file name of the current candidate.
    pub fn candidate(&self) -> (name: Vec<u8>)
        requires
            1 <= self.index <= MAX_RECORDING_INDEX,
        ensures
            name@ == recording_name(self.index),
            name@.len() == 12,
            forall|k: int| 4 <= k < 8 ==> 0x30 <= #[trigger] name@[k] <= 0x39,
            1000 * (name@[4] - 0x30) + 100 * (name@[5] - 0x30) + 10 * (name@[6] - 0x30) + (
            name@[7] - 0x30) == self.index,
    {
        let i = self.index;
        let mut v: Vec<u8> = Vec::new();
        v.push(0x52);
        v.push(0x45);
        v.push(0x43);
        v.push(0x5F);
        v.push((0x30 + i / 1000 % 10) as u8);
        v.push((0x30 + i / 100 % 10) as u8);
        v.push((0x30 + i / 10 % 10) as u8);
        v.push((0x30 + i % 10) as u8);
        v.push(0x2E);
        v.push(0x57);
        v.push(0x41);
        v.push(0x56);
        assert(v@ =~= recording_name(i));
        proof {
            lemma_recording_name_is_decimal(i);
        }
        v
    }

    /// The current candidate exists: moves on to the next number, or fails
    /// when the last number was taken too.
    pub fn on_taken(&mut self) -> (r: Result<(), SdError>)
        requires
            1 <= old(self).index <= MAX_RECORDING_INDEX,
        ensures
            old(self).index < MAX_RECORDING_INDEX ==> r is Ok && final(self).index == old(
                self,
            ).index + 1,
            old(self).index == MAX_RECORDING_INDEX ==> r == Err::<(), SdError>(
                SdError::AllRecordingNamesTaken,
            ) && final(self).index == old(self).index,
    {
        if self.index < MAX_RECORDING_INDEX {
            self.index = self.index + 1;
            Ok(())
        } else {
            Err(SdError::AllRecordingNamesTaken)
        }
    }
}

proof fn lemma_four_digits(i: u32)
    requires
        i <= 9999,
    ensures
        i == 1000 * (i / 1000 % 10) + 100 * (i / 100 % 10) + 10 * (i / 10 % 10) + i % 10,
        i / 1000 % 10 < 10,
        i / 100 % 10 < 10,
        i / 10 % 10 < 10,
        i % 10 < 10,
{
    assert(i == 1000 * (i / 1000 % 10) + 100 * (i / 100 % 10) + 10 * (i / 10 % 10) + i % 10)
        by (nonlinear_arith)
        requires
            i <= 9999,
    ;
}

/// Different recording numbers give different file names, so each candidate
/// of the search is a new file.
pub proof fn lemma_recording_names_distinct(i: u32, j: u32)
    requires
        1 <= i <= MAX_RECORDING_INDEX,
        1 <= j <= MAX_RECORDING_INDEX,
        i != j,
    ensures
        recording_name(i) != recording_name(j),
{
    let a = recording_name(i);
    let b = recording_name(j);
    lemma_four_digits(i);
    lemma_four_digits(j);
    if a == b {
        assert(a[4] == b[4] && a[5] == b[5] && a[6] == b[6] && a[7] == b[7]);
    }
}

/// The sort key is the ASCII uppercase form of the name: each lowercase
/// letter `a`..`z` becomes its capital (32 less), every other byte is kept.
pub proof fn lemma_sort_key_is_ascii_uppercase(name: Seq<u8>)
    ensures
        sort_key(name).len() == name.len(),
        forall|i: int|
            0 <= i < name.len() ==> {
                &&& 0x61 <= name[i] <= 0x7A ==> #[trigger] sort_key(name)[i] == name[i] - 32
                &&& !(0x61 <= name[i] <= 0x7A) ==> sort_key(name)[i] == name[i]
            },
{
}

/// The order of names is lexicographic: the first differing byte decides,
/// smaller first, and a proper prefix comes before the longer name.
pub proof fn lemma_lex_order(a: Seq<u8>, b: Seq<u8>, k: int)
    ensures
        0 <= k < a.len() && k < b.len() && a.subrange(0, k) == b.subrange(0, k) && a[k] < b[k]
            ==> lex_lt(a, b),
        a.len() < b.len() && a == b.subrange(0, a.len() as int) ==> lex_lt(a, b),
    decreases a.len(),
{
    if a.len() > 0 && b.len() > 0 {
        let a1 = a.subrange(1, a.len() as int);
        let b1 = b.subrange(1, b.len() as int);
        if 0 < k < a.len() && k < b.len() && a.subrange(0, k) == b.subrange(0, k) && a[k] < b[k] {
            assert(a.subrange(0, k)[0] == a[0]);
            assert(b.subrange(0, k)[0] == b[0]);
            assert(a1.subrange(0, k - 1) =~= b1.subrange(0, k - 1)) by {
                assert forall|j: int| 0 <= j < k - 1 implies a1[j] == b1[j] by {
                    assert(a.subrange(0, k)[j + 1] == b.subrange(0, k)[j + 1]);
                }
            }
            lemma_lex_order(a1, b1, k - 1);
        }
        if a.len() < b.len() && a == b.subrange(0, a.len() as int) {
            assert(a[0] == b[0]);
            assert(a1 =~= b1.subrange(0, a1.len() as int));
            lemma_lex_order(a1, b1, 0);
        }
    }
}

/// Whether two names are equal up to ASCII letter case.
pub open spec fn same_ignoring_case(a: Seq<u8>, b: Seq<u8>) -> bool {
    &&& a.len() == b.len()
    &&& forall|i: int|
        0 <= i < a.len() ==> {
            ||| #[trigger] a[i] == b[i]
            ||| 0x61 <= a[i] <= 0x7A && b[i] == a[i] - 32
            ||| 0x61 <= b[i] <= 0x7A && a[i] == b[i] - 32
        }
}

/// Names that differ only in letter case have the same sort key and the same
/// verdict on the `.wav` extension.
pub proof fn lemma_sort_key_ignores_case(a: Seq<u8>, b: Seq<u8>)
    requires
        same_ignoring_case(a, b),
    ensures
        sort_key(a) == sort_key(b),
        has_wav_extension(a) == has_wav_extension(b),
{
    assert(sort_key(a) =~= sort_key(b)) by {
        assert forall|i: int| 0 <= i < a.len() implies sort_key(a)[i] == sort_key(b)[i] by {
            assert(a[i] == b[i] || (0x61 <= a[i] <= 0x7A && b[i] == a[i] - 32) || (0x61 <= b[i]
                <= 0x7A && a[i] == b[i] - 32));
        }
    }
    let n = a.len() as int;
    if n >= 5 {
        assert(a[n - 4] == b[n - 4] || (0x61 <= a[n - 4] <= 0x7A && b[n - 4] == a[n - 4] - 32) || (
        0x61 <= b[n - 4] <= 0x7A && a[n - 4] == b[n - 4] - 32));
        assert(a[n - 3] == b[n - 3] || (0x61 <= a[n - 3] <= 0x7A && b[n - 3] == a[n - 3] - 32) || (
        0x61 <= b[n - 3] <= 0x7A && a[n - 3] == b[n - 3] - 32));
        assert(a[n - 2] == b[n - 2] || (0x61 <= a[n - 2] <= 0x7A && b[n - 2] == a[n - 2] - 32) || (
        0x61 <= b[n - 2] <= 0x7A && a[n - 2] == b[n - 2] - 32));
        assert(a[n - 1] == b[n - 1] || (0x61 <= a[n - 1] <= 0x7A && b[n - 1] == a[n - 1] - 32) || (
        0x61 <= b[n - 1] <= 0x7A && a[n - 1] == b[n - 1] - 32));
    }
}

/// The file chosen for playback does not depend on the letter case of the
/// names: renaming files only in case (keeping which entries are regular
/// files) keeps the choice.
pub proof fn lemma_first_wav_ignores_case(e1: Seq<DirEntry>, e2: Seq<DirEntry>, i: int)
    requires
        e1.len() == e2.len(),
        forall|j: int|
            0 <= j < e1.len() ==> (#[trigger] e1[j]).is_file == e2[j].is_file && same_ignoring_case(
                e1[j].name@,
                e2[j].name@,
            ),
    ensures
        is_first_wav(e1, i) <==> is_first_wav(e2, i),
{
    assert forall|j: int| 0 <= j < e1.len() implies sort_key(e1[j].name@) == sort_key(
        e2[j].name@,
    ) && is_wav_entry(#[trigger] e1[j]) == is_wav_entry(e2[j]) by {
        lemma_sort_key_ignores_case(e1[j].name@, e2[j].name@);
    }
    if 0 <= i < e1.len() {
        assert(sort_key(e1[i].name@) == sort_key(e2[i].name@) && is_wav_entry(e1[i])
            == is_wav_entry(e2[i]));
        if is_first_wav(e1, i) {
            assert forall|j: int| 0 <= j < e2.len() && is_wav_entry(#[trigger] e2[j]) implies !lex_lt(
                sort_key(e2[j].name@),
                sort_key(e2[i].name@),
            ) by {
                assert(is_wav_entry(e1[j]));
            }
            assert forall|j: int| 0 <= j < i && is_wav_entry(#[trigger] e2[j]) implies lex_lt(
                sort_key(e2[i].name@),
                sort_key(e2[j].name@),
            ) by {
                assert(is_wav_entry(e1[j]));
            }
        }
        if is_first_wav(e2, i) {
            assert forall|j: int| 0 <= j < e1.len() && is_wav_entry(#[trigger] e1[j]) implies !lex_lt(
                sort_key(e1[j].name@),
                sort_key(e1[i].name@),
            ) by {
                assert(is_wav_entry(e2[j]));
            }
            assert forall|j: int| 0 <= j < i && is_wav_entry(#[trigger] e1[j]) implies lex_lt(
                sort_key(e1[i].name@),
                sort_key(e1[j].name@),
            ) by {
                assert(is_wav_entry(e2[j]));
            }
        }
    }
}

/// A recording name is `REC_`, the four decimal digits of the number (most
/// significant first) and `.WAV`.
pub proof fn lemma_recording_name_is_decimal(index: u32)
    requires
        index <= MAX_RECORDING_INDEX,
    ensures
        ({
            let n = recording_name(index);
            &&& n.len() == 12
            &&& n[0] == 0x52 && n[1] == 0x45 && n[2] == 0x43 && n[3] == 0x5F
            &&& n[8] == 0x2E && n[9] == 0x57 && n[10] == 0x41 && n[11] == 0x56
            &&& forall|k: int| 4 <= k < 8 ==> 0x30 <= #[trigger] n[k] <= 0x39
            &&& 1000 * (n[4] - 0x30) + 100 * (n[5] - 0x30) + 10 * (n[6] - 0x30) + (n[7] - 0x30)
                == index
        }),
{
    lemma_four_digits(index);
}

impl SdCard {
    /// The card after the native mount reported `code`: mounted when the code
    /// is zero.
    pub fn mount(code: i32) -> (r: Result<SdCard, HwError>)
        ensures
            code == 0 <==> r is Ok,
            r is Err ==> r->Err_0 == (HwError { op: HwOp::SdMount, code }),
    {
        match check(code, HwOp::SdMount) {
            Ok(()) => Ok(SdCard),
            Err(e) => Err(e),
        }
    }

    /// The WAV file to play among the root directory `entries`: the regular
    /// file with a `.wav` extension (in any letter case) whose name comes
    /// first alphabetically, ignoring letter case; `None` when there is none.
    pub fn first_wav(&self, entries: &[DirEntry]) -> (r: Option<usize>)
        ensures
            r is Some ==> is_first_wav(entries@, r->0 as int),
            r is None ==> forall|j: int| 0 <= j < entries@.len() ==> !is_wav_entry(
                #[trigger] entries@[j],
            ),
    {
        let mut best: Option<usize> = None;
        let mut i: usize = 0;
        while i < entries.len()
            invariant
                i <= entries@.len(),
                best is None ==> forall|j: int| 0 <= j < i ==> !is_wav_entry(
                    #[trigger] entries@[j],
                ),
                best is Some ==> {
                    let b = best->0 as int;
                    &&& 0 <= b < i
                    &&& is_wav_entry(entries@[b])
                    &&& forall|j: int|
                        0 <= j < i && is_wav_entry(#[trigger] entries@[j]) ==> !lex_lt(
                            sort_key(entries@[j].name@),
                            sort_key(entries@[b].name@),
                        )
                    &&& forall|j: int|
                        0 <= j < b && is_wav_entry(#[trigger] entries@[j]) ==> lex_lt(
                            sort_key(entries@[b].name@),
                            sort_key(entries@[j].name@),
                        )
                },
            decreases entries.len() - i,
        {
            let e = &entries[i];
            if e.is_file && is_wav_name(e.name.as_slice()) {
                match best {
                    None => {
                        proof {
                            lemma_lex_lt_irreflexive(sort_key(e.name@));
                        }
                        best = Some(i);
                    },
                    Some(b) => {
                        if key_less(e.name.as_slice(), entries[b].name.as_slice()) {
                            proof {
                                let ki = sort_key(entries@[i as int].name@);
                                let kb = sort_key(entries@[b as int].name@);
                                lemma_lex_lt_irreflexive(ki);
                                assert forall|j: int|
                                    0 <= j < i + 1 && is_wav_entry(
                                        #[trigger] entries@[j],
                                    ) implies !lex_lt(sort_key(entries@[j].name@), ki) by {
                                    let kj = sort_key(entries@[j].name@);
                                    if j < i && lex_lt(kj, ki) {
                                        lemma_lex_lt_transitive(kj, ki, kb);
                                    }
                                }
                                assert forall|j: int|
                                    0 <= j < i && is_wav_entry(#[trigger] entries@[j]) implies lex_lt(
                                        ki,
                                        sort_key(entries@[j].name@),
                                    ) by {
                                    let kj = sort_key(entries@[j].name@);
                                    lemma_lex_lt_total(kj, kb);
                                    if j == b as int {
                                    } else if kj == kb {
                                    } else {
                                        lemma_lex_lt_transitive(ki, kb, kj);
                                    }
                                }
                            }
                            best = Some(i);
                        } else {
                            proof {
                                let ki = sort_key(entries@[i as int].name@);
                                let kb = sort_key(entries@[b as int].name@);
                                lemma_lex_lt_total(ki, kb);
                            }
                        }
                    },
                }
            }
            i = i + 1;
        }
        best
    }

    /// Starts the search for the name of a new recording at `REC_0001.WAV`.
    pub fn next_recording_path(&self) -> (s: RecordingPathSearch)
        ensures
            s.index == 1,
    {
        RecordingPathSearch { index: 1 }
    }
}

} // verus!
