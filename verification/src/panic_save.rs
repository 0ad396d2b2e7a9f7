//! What the panic path keeps for the diagnostics it prints: the registers at
//! the time and a snapshot of the words on top of the stack.

use vstd::prelude::*;

verus! {

/// Stack words kept in a snapshot.
pub const PANIC_STACK_WORDS: usize = 32;

/// General-purpose and segment registers at panic time.
#[derive(Clone, Copy, Debug, PartialEq, Eq, Structural)]
pub struct SavedRegisters {
    pub eax: u32,
    pub ebx: u32,
    pub ecx: u32,
    pub edx: u32,
    pub esi: u32,
    pub edi: u32,
    pub ebp: u32,
    pub esp: u32,
    pub eflags: u32,
    pub cs: u16,
    pub ds: u16,
    pub es: u16,
    pub fs: u16,
    pub gs: u16,
    pub ss: u16,
    pub pad: u16,
}

impl SavedRegisters {
    pub fn zeroed() -> (r: Self)
        ensures
            r == (SavedRegisters {
                eax: 0,
                ebx: 0,
                ecx: 0,
                edx: 0,
                esi: 0,
                edi: 0,
                ebp: 0,
                esp: 0,
                eflags: 0,
                cs: 0,
                ds: 0,
                es: 0,
                fs: 0,
                gs: 0,
                ss: 0,
                pad: 0,
            }),
    {
        SavedRegisters { eax: 0, ebx: 0, ecx: 0, edx: 0, esi: 0, edi: 0, ebp: 0, esp: 0, eflags: 0, cs: 0, ds: 0, es: 0, fs: 0, gs: 0, ss: 0, pad: 0 }
    }
}

/// Words on top of the stack from `base_esp` up; `count` of them are meaningful.
#[derive(Clone, Debug)]
pub struct SavedStack {
    pub base_esp: u32,
    /// Always 32 entries.
    pub words: Vec<u32>,
    pub count: usize,
}

/// How many words a snapshot asked for `max_words` keeps: 1 to 32.
pub open spec fn kept_words(max_words: usize) -> usize {
    if max_words > PANIC_STACK_WORDS { PANIC_STACK_WORDS } else if max_words < 1 { 1 } else { max_words }
}

pub fn stack_words_count(max_words: usize) -> (n: usize)
    ensures
        n == kept_words(max_words),
{
    let n = if max_words < PANIC_STACK_WORDS { max_words } else { PANIC_STACK_WORDS };
    if n < 1 { 1 } else { n }
}

impl SavedStack {
    pub fn empty() -> (s: Self)
        ensures
            s.base_esp == 0,
            s.count == 0,
            s.words@ == Seq::new(PANIC_STACK_WORDS as nat, |i: int| 0u32),
    {
        let mut words: Vec<u32> = Vec::new();
        while words.len() < PANIC_STACK_WORDS
            invariant
                words@.len() <= PANIC_STACK_WORDS,
                words@ == Seq::new(words@.len(), |i: int| 0u32),
            decreases PANIC_STACK_WORDS - words@.len(),
        {
            words.push(0);
            assert(words@ =~= Seq::new(words@.len(), |i: int| 0u32));
        }
        SavedStack { base_esp: 0, words, count: 0 }
    }

    /// Snapshot of the stack at `base_esp` whose first words are `mem`:
    /// `kept_words(max_words)` of them are kept, the rest of the 32 are zero.
    pub fn capture(base_esp: u32, mem: &[u32], max_words: usize) -> (s: Self)
        requires
            mem@.len() >= kept_words(max_words),
        ensures
            s.base_esp == base_esp,
            s.count == kept_words(max_words),
            s.words@ == Seq::new(
                PANIC_STACK_WORDS as nat,
                |i: int| if i < kept_words(max_words) { mem@[i] } else { 0u32 },
            ),
    {
        let n = stack_words_count(max_words);
        let mut words: Vec<u32> = Vec::new();
        let mut i: usize = 0;
        while i < PANIC_STACK_WORDS
            invariant
                n == kept_words(max_words),
                mem@.len() >= n,
                i <= PANIC_STACK_WORDS,
                words@ == Seq::new(i as nat, |k: int| if k < kept_words(max_words) { mem@[k] } else { 0u32 }),
            decreases PANIC_STACK_WORDS - i,
        {
            words.push(if i < n { mem[i] } else { 0 });
            i = i + 1;
            assert(words@ =~= Seq::new(i as nat, |k: int| if k < kept_words(max_words) { mem@[k] } else { 0u32 }));
        }
        SavedStack { base_esp, words, count: n }
    }
}

} // verus!
