//! Text for diagnostic dumps: bytes as two hexadecimal digits each, laid out
//! in rows of a fixed width, and numbers in decimal.
use vstd::prelude::*;
use vstd::string::StringExecFns;

verus! {

/// The digit for `n`, in lower case, for `n` below sixteen.
pub open spec fn hex_digit(n: int) -> char {
    "0123456789abcdef"@[n]
}

/// The two hexadecimal digits of `byte`.
pub open spec fn byte_text(byte: u8) -> Seq<char> {
    seq![hex_digit(byte as int / 16), hex_digit(byte as int % 16)]
}

/// The text for the byte at position `index` of a dump in rows of `width`
/// bytes: a line break if the byte begins a row, its two digits, and a space.
pub open spec fn cell_text(index: int, byte: u8, width: int) -> Seq<char> {
    (if index % width == 0 {
        seq!['\n']
    } else {
        Seq::<char>::empty()
    }) + byte_text(byte) + seq![' ']
}

/// The dump of `bytes` in rows of `width` bytes.
pub open spec fn grid_text(bytes: Seq<u8>, width: int) -> Seq<char>
    decreases bytes.len(),
{
    if bytes.len() == 0 {
        Seq::<char>::empty()
    } else {
        grid_text(bytes.drop_last(), width) + cell_text(bytes.len() - 1, bytes.last(), width)
    }
}

/// The bytes of `bytes` in one row: the two digits of each, and a space
/// after each.
pub open spec fn run_text(bytes: Seq<u8>) -> Seq<char>
    decreases bytes.len(),
{
    if bytes.len() == 0 {
        Seq::<char>::empty()
    } else {
        run_text(bytes.drop_last()) + byte_text(bytes.last()) + seq![' ']
    }
}

/// `piece` written `n` times.
pub open spec fn repeated(piece: Seq<char>, n: nat) -> Seq<char>
    decreases n,
{
    if n == 0 {
        Seq::<char>::empty()
    } else {
        repeated(piece, (n - 1) as nat) + piece
    }
}

/// `n` in decimal, without leading zeros.
pub open spec fn decimal_text(n: nat) -> Seq<char>
    decreases n,
{
    if n < 10 {
        seq![hex_digit(n as int)]
    } else {
        decimal_text(n / 10).push(hex_digit((n % 10) as int))
    }
}

/// The digit for `n` as a text of one character.
pub(crate) fn digit(n: u8) -> (text: &'static str)
    requires
        n < 16,
    ensures
        text@ == seq![hex_digit(n as int)],
{
    proof {
        reveal_strlit("0123456789abcdef");
        reveal_strlit("0");
        reveal_strlit("1");
        reveal_strlit("2");
        reveal_strlit("3");
        reveal_strlit("4");
        reveal_strlit("5");
        reveal_strlit("6");
        reveal_strlit("7");
        reveal_strlit("8");
        reveal_strlit("9");
        reveal_strlit("a");
        reveal_strlit("b");
        reveal_strlit("c");
        reveal_strlit("d");
        reveal_strlit("e");
        reveal_strlit("f");
    }
    let text = if n == 0 {
        "0"
    } else if n == 1 {
        "1"
    } else if n == 2 {
        "2"
    } else if n == 3 {
        "3"
    } else if n == 4 {
        "4"
    } else if n == 5 {
        "5"
    } else if n == 6 {
        "6"
    } else if n == 7 {
        "7"
    } else if n == 8 {
        "8"
    } else if n == 9 {
        "9"
    } else if n == 10 {
        "a"
    } else if n == 11 {
        "b"
    } else if n == 12 {
        "c"
    } else if n == 13 {
        "d"
    } else if n == 14 {
        "e"
    } else {
        "f"
    };
    proof {
        assert(text@ =~= seq![hex_digit(n as int)]);
    }
    text
}

/// Appends the two digits of `byte` to `text`.
pub(crate) fn push_byte(text: &mut String, byte: u8)
    ensures
        final(text)@ == old(text)@ + byte_text(byte),
{
    text.append(digit(byte / 16));
    text.append(digit(byte % 16));
    proof {
        assert(text@ =~= old(text)@ + byte_text(byte));
    }
}

/// Appends to `text` the text for the byte at position `index` of a dump in
/// rows of `width` bytes.
pub(crate) fn push_cell(text: &mut String, index: usize, byte: u8, width: usize)
    requires
        width > 0,
    ensures
        final(text)@ == old(text)@ + cell_text(index as int, byte, width as int),
{
    proof {
        reveal_strlit("\n");
        reveal_strlit(" ");
    }
    if index % width == 0 {
        text.append("\n");
    }
    push_byte(text, byte);
    text.append(" ");
    proof {
        assert(text@ =~= old(text)@ + cell_text(index as int, byte, width as int));
    }
}

/// Appends the dump of `bytes` in rows of `width` bytes to `text`.
pub(crate) fn push_grid(text: &mut String, bytes: &[u8], width: usize)
    requires
        width > 0,
    ensures
        final(text)@ == old(text)@ + grid_text(bytes@, width as int),
{
    let mut i: usize = 0;
    while i < bytes.len()
        invariant
            width > 0,
            i <= bytes@.len(),
            text@ == old(text)@ + grid_text(bytes@.take(i as int), width as int),
        decreases bytes@.len() - i,
    {
        push_cell(text, i, bytes[i], width);
        proof {
            let next = bytes@.take(i + 1);
            assert(next.drop_last() =~= bytes@.take(i as int));
            assert(text@ =~= old(text)@ + grid_text(next, width as int));
        }
        i += 1;
    }
    proof {
        assert(bytes@.take(i as int) =~= bytes@);
    }
}

/// Appends `n` in decimal to `text`.
pub(crate) fn push_decimal(text: &mut String, n: u16)
    ensures
        final(text)@ == old(text)@ + decimal_text(n as nat),
    decreases n,
{
    if n < 10 {
        text.append(digit(n as u8));
    } else {
        push_decimal(text, n / 10);
        text.append(digit((n % 10) as u8));
        proof {
            assert(text@ =~= old(text)@ + decimal_text(n as nat));
        }
    }
}

/// Appends the bytes of `bytes` from position `from` up to `to` to `text`, in
/// one row.
pub(crate) fn push_run(text: &mut String, bytes: &[u8], from: usize, to: usize)
    requires
        from <= to <= bytes@.len(),
    ensures
        final(text)@ == old(text)@ + run_text(bytes@.subrange(from as int, to as int)),
{
    let mut i: usize = from;
    while i < to
        invariant
            from <= i <= to <= bytes@.len(),
            text@ == old(text)@ + run_text(bytes@.subrange(from as int, i as int)),
        decreases to - i,
    {
        push_byte(text, bytes[i]);
        text.append(" ");
        proof {
            reveal_strlit(" ");
            let next = bytes@.subrange(from as int, i + 1);
            assert(next.drop_last() =~= bytes@.subrange(from as int, i as int));
            assert(next.last() == bytes@[i as int]);
            assert(text@ =~= old(text)@ + run_text(next));
        }
        i += 1;
    }
}

/// Appends `piece` to `text`, `n` times.
pub(crate) fn push_repeated(text: &mut String, piece: &str, n: usize)
    ensures
        final(text)@ == old(text)@ + repeated(piece@, n as nat),
{
    let mut i: usize = 0;
    while i < n
        invariant
            i <= n,
            text@ == old(text)@ + repeated(piece@, i as nat),
        decreases n - i,
    {
        text.append(piece);
        proof {
            assert(text@ =~= old(text)@ + repeated(piece@, (i + 1) as nat));
        }
        i += 1;
    }
}

} // verus!
