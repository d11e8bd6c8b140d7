//! Local echo as a bit of the terminal's local-mode flags.

use vstd::prelude::*;

verus! {

/// The bit of the local-mode flags that makes the terminal echo what is typed.
pub const ECHO: u32 = 8;

/// Whether local echo is wanted.
#[derive(Clone, Copy, Debug, PartialEq, Eq, Structural)]
pub enum Toggle {
    On,
    Off,
}

/// The local-mode flags with the echo bit set or cleared and every other bit kept.
pub open spec fn with_echo(lflag: u32, enabled: Toggle) -> u32 {
    match enabled {
        Toggle::On => lflag | ECHO,
        Toggle::Off => lflag & !ECHO,
    }
}

/// Whether the echo bit is set in the local-mode flags.
pub open spec fn echoes(lflag: u32) -> bool {
    lflag & ECHO == ECHO
}

/// Setting or clearing the echo bit leaves the terminal echoing as asked and
/// changes no other bit.
pub proof fn lemma_with_echo(lflag: u32, enabled: Toggle)
    ensures
        echoes(with_echo(lflag, enabled)) <==> enabled is On,
        with_echo(lflag, enabled) & !ECHO == lflag & !ECHO,
        with_echo(with_echo(lflag, enabled), enabled) == with_echo(lflag, enabled),
{
    assert((lflag | 8) & 8 == 8) by (bit_vector);
    assert((lflag & !8u32) & 8 != 8) by (bit_vector);
    assert((lflag | 8) & !8u32 == lflag & !8u32) by (bit_vector);
    assert((lflag & !8u32) & !8u32 == lflag & !8u32) by (bit_vector);
    assert((lflag | 8) | 8 == lflag | 8) by (bit_vector);
}

/// Computes the local-mode flags that switch echo as `enabled` says.
pub fn echo_flags(lflag: u32, enabled: Toggle) -> (flags: u32)
    ensures
        flags == with_echo(lflag, enabled),
        echoes(flags) <==> enabled is On,
        flags & !ECHO == lflag & !ECHO,
{
    proof {
        lemma_with_echo(lflag, enabled);
    }
    match enabled {
        Toggle::On => lflag | ECHO,
        Toggle::Off => lflag & !ECHO,
    }
}

} // verus!
