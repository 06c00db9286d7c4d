use vstd::prelude::*;
use vstd::string::StringExecFns;

use crate::tile::Tile;

verus! {

/// Where the embedded sprite images live.
pub const ASSET_PREFIX: &'static str = "embedded://minesweeper/assets/";

/// The sprite images that the game embeds: one per number, a flag, a covered
/// tile and a mine.
pub struct EmbeddedAssetsPlugin;

/// The decimal digit `d`.
pub open spec fn digit_char(d: int) -> char {
    if d == 0 {
        '0'
    } else if d == 1 {
        '1'
    } else if d == 2 {
        '2'
    } else if d == 3 {
        '3'
    } else if d == 4 {
        '4'
    } else if d == 5 {
        '5'
    } else if d == 6 {
        '6'
    } else if d == 7 {
        '7'
    } else if d == 8 {
        '8'
    } else {
        '9'
    }
}

/// `n` written in decimal, without leading zeros.
pub open spec fn decimal(n: nat) -> Seq<char>
    decreases n,
{
    if n < 10 {
        seq![digit_char(n as int)]
    } else {
        decimal(n / 10) + seq![digit_char((n % 10) as int)]
    }
}

/// The path of the image `name`.png under the asset prefix.
pub open spec fn asset_path_of(name: Seq<char>) -> Seq<char> {
    ASSET_PREFIX@ + seq!['/'] + name + seq!['.', 'p', 'n', 'g']
}

/// Appends the decimal digit `d`.
fn push_digit(s: &mut String, d: u8)
    requires
        d < 10,
    ensures
        final(s)@ == old(s)@ + seq![digit_char(d as int)],
{
    let t: &str = if d == 0 {
        proof { reveal_strlit("0"); }
        "0"
    } else if d == 1 {
        proof { reveal_strlit("1"); }
        "1"
    } else if d == 2 {
        proof { reveal_strlit("2"); }
        "2"
    } else if d == 3 {
        proof { reveal_strlit("3"); }
        "3"
    } else if d == 4 {
        proof { reveal_strlit("4"); }
        "4"
    } else if d == 5 {
        proof { reveal_strlit("5"); }
        "5"
    } else if d == 6 {
        proof { reveal_strlit("6"); }
        "6"
    } else if d == 7 {
        proof { reveal_strlit("7"); }
        "7"
    } else if d == 8 {
        proof { reveal_strlit("8"); }
        "8"
    } else {
        proof { reveal_strlit("9"); }
        "9"
    };
    assert(t@ =~= seq![digit_char(d as int)]);
    s.append(t);
}

/// The path of the image `file_name`.png; the name carries no extension.
pub fn asset_path(file_name: &str) -> (r: String)
    ensures
        r@ == asset_path_of(file_name@),
{
    let mut s = String::from_str(ASSET_PREFIX);
    proof { reveal_strlit("/"); reveal_strlit(".png"); }
    s.append("/");
    s.append(file_name);
    s.append(".png");
    assert(s@ =~= asset_path_of(file_name@));
    s
}

/// The path of the image of a revealed tile with the given number.
pub fn asset_path_tile(number: u8) -> (r: String)
    ensures
        r@ == asset_path_of(decimal(number as nat)),
{
    let mut digits = String::new();
    let ghost n = number as nat;
    if number >= 100 {
        push_digit(&mut digits, number / 100);
        push_digit(&mut digits, (number / 10) % 10);
        assert(decimal(n / 10 / 10) == seq![digit_char((n / 100) as int)]);
        assert(decimal(n / 10) =~= decimal(n / 10 / 10) + seq![digit_char(((n / 10) % 10) as int)]);
    } else if number >= 10 {
        push_digit(&mut digits, number / 10);
        assert(decimal(n / 10) == seq![digit_char((n / 10) as int)]);
    }
    push_digit(&mut digits, number % 10);
    assert(digits@ =~= decimal(n));
    asset_path(digits.as_str())
}

/// The image of a tile during play: a flag, its number once revealed, or
/// the covered image.
pub fn play_sprite(t: &Tile) -> (r: String)
    ensures
        r@ == if t.flagged {
            asset_path_of("flag"@)
        } else if t.revealed {
            asset_path_of(decimal(t.number as nat))
        } else {
            asset_path_of("closed"@)
        },
{
    if t.flagged {
        asset_path("flag")
    } else if t.revealed {
        asset_path_tile(t.number)
    } else {
        asset_path("closed")
    }
}

/// The image of a tile once the match is over: a mine, or its number.
pub fn final_sprite(t: &Tile) -> (r: String)
    ensures
        r@ == if t.bomb {
            asset_path_of("bomb"@)
        } else {
            asset_path_of(decimal(t.number as nat))
        },
{
    if t.bomb {
        asset_path("bomb")
    } else {
        asset_path_tile(t.number)
    }
}

} // verus!
