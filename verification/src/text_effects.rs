//! ANSI text-styling escape pairs: each function returns the sequence that
//! switches a style on and the sequence that resets all styling.
use vstd::prelude::*;

verus! {

/// Escape pair for bold text.
pub fn bold<'a>() -> (r: (&'a str, &'a str))
    ensures
        r.0@ == "\x1B[1m"@,
        r.1@ == "\x1B[0m"@,
{
    ("\x1B[1m", "\x1B[0m")
}

/// Escape pair for underlined text.
pub fn underline<'a>() -> (r: (&'a str, &'a str))
    ensures
        r.0@ == "\x1B[4m"@,
        r.1@ == "\x1B[0m"@,
{
    ("\x1B[4m", "\x1B[0m")
}

/// Escape pair for dimmed text.
pub fn dimmed<'a>() -> (r: (&'a str, &'a str))
    ensures
        r.0@ == "\x1B[2m"@,
        r.1@ == "\x1B[0m"@,
{
    ("\x1B[2m", "\x1B[0m")
}

/// Escape pair for italic text.
pub fn italic<'a>() -> (r: (&'a str, &'a str))
    ensures
        r.0@ == "\x1B[3m"@,
        r.1@ == "\x1B[0m"@,
{
    ("\x1B[3m", "\x1B[0m")
}

/// Escape pair for blinking text.
pub fn blink<'a>() -> (r: (&'a str, &'a str))
    ensures
        r.0@ == "\x1B[5m"@,
        r.1@ == "\x1B[0m"@,
{
    ("\x1B[5m", "\x1B[0m")
}

/// Escape pair for reverse-video text.
pub fn reverse<'a>() -> (r: (&'a str, &'a str))
    ensures
        r.0@ == "\x1B[7m"@,
        r.1@ == "\x1B[0m"@,
{
    ("\x1B[7m", "\x1B[0m")
}

/// Escape pair for hidden text.
pub fn hidden<'a>() -> (r: (&'a str, &'a str))
    ensures
        r.0@ == "\x1B[8m"@,
        r.1@ == "\x1B[0m"@,
{
    ("\x1B[8m", "\x1B[0m")
}

/// Escape pair for struck-through text.
pub fn stricken<'a>() -> (r: (&'a str, &'a str))
    ensures
        r.0@ == "\x1B[9m"@,
        r.1@ == "\x1B[0m"@,
{
    ("\x1B[9m", "\x1B[0m")
}

} // verus!
