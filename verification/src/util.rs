//! Terminal color escape codes, looked up by color name and ground.

use vstd::prelude::*;

verus! {

use crate::text::str_eq;

/// The foreground escape code for a color name; unknown names give the
/// empty string.
pub open spec fn fg_code_spec(color: Seq<char>) -> Seq<char> {
    if color == "black"@ {
        "\x1b[0;30m"@
    } else if color == "red"@ {
        "\x1b[0;31m"@
    } else if color == "green"@ {
        "\x1b[0;32m"@
    } else if color == "yellow"@ {
        "\x1b[0;33m"@
    } else if color == "blue"@ {
        "\x1b[0;34m"@
    } else if color == "magenta"@ {
        "\x1b[0;35m"@
    } else if color == "cyan"@ {
        "\x1b[0;36m"@
    } else if color == "white"@ {
        "\x1b[0;37m"@
    } else if color == "dark_grey"@ {
        "\x1b[0;90m"@
    } else if color == "light_red"@ {
        "\x1b[0;91m"@
    } else if color == "light_green"@ {
        "\x1b[0;92m"@
    } else if color == "light_yellow"@ {
        "\x1b[0;93m"@
    } else if color == "light_blue"@ {
        "\x1b[0;94m"@
    } else if color == "light_purple"@ {
        "\x1b[0;95m"@
    } else if color == "turquoise"@ {
        "\x1b[0;96m"@
    } else if color == "light_white"@ {
        "\x1b[0;97m"@
    } else {
        ""@
    }
}

/// The background escape code for a color name; unknown names give the
/// empty string.
pub open spec fn bg_code_spec(color: Seq<char>) -> Seq<char> {
    if color == "black"@ {
        "\x1b[0;40m"@
    } else if color == "red"@ {
        "\x1b[0;41m"@
    } else if color == "green"@ {
        "\x1b[0;42m"@
    } else if color == "yellow"@ {
        "\x1b[0;43m"@
    } else if color == "blue"@ {
        "\x1b[0;44m"@
    } else if color == "magenta"@ {
        "\x1b[0;45m"@
    } else if color == "cyan"@ {
        "\x1b[0;46m"@
    } else if color == "white"@ {
        "\x1b[0;47m"@
    } else if color == "dark_grey"@ {
        "\x1b[0;100m"@
    } else if color == "light_red"@ {
        "\x1b[0;101m"@
    } else if color == "light_green"@ {
        "\x1b[0;102m"@
    } else if color == "light_yellow"@ {
        "\x1b[0;103m"@
    } else if color == "light_blue"@ {
        "\x1b[0;104m"@
    } else if color == "light_purple"@ {
        "\x1b[0;105m"@
    } else if color == "turquoise"@ {
        "\x1b[0;106m"@
    } else if color == "light_white"@ {
        "\x1b[0;107m"@
    } else {
        ""@
    }
}

/// The escape code for a color name on the given ground: `"clear"` resets,
/// `"fg"` and `"bg"` look the name up, anything else gives the empty
/// string.
pub open spec fn color_code_spec(color: Seq<char>, ground: Seq<char>) -> Seq<char> {
    if ground == "clear"@ {
        "\x1b[0m"@
    } else if ground == "fg"@ {
        fg_code_spec(color)
    } else if ground == "bg"@ {
        bg_code_spec(color)
    } else {
        ""@
    }
}

/// Looks up the terminal escape code for a color name on the given ground.
pub fn color<'a>(name: &'a str, ground: &'a str) -> (r: &'a str)
    ensures
        r@ == color_code_spec(name@, ground@),
{
    if str_eq(ground, "clear") {
        "\x1b[0m"
    } else if str_eq(ground, "fg") {
        if str_eq(name, "black") {
            "\x1b[0;30m"
        } else if str_eq(name, "red") {
            "\x1b[0;31m"
        } else if str_eq(name, "green") {
            "\x1b[0;32m"
        } else if str_eq(name, "yellow") {
            "\x1b[0;33m"
        } else if str_eq(name, "blue") {
            "\x1b[0;34m"
        } else if str_eq(name, "magenta") {
            "\x1b[0;35m"
        } else if str_eq(name, "cyan") {
            "\x1b[0;36m"
        } else if str_eq(name, "white") {
            "\x1b[0;37m"
        } else if str_eq(name, "dark_grey") {
            "\x1b[0;90m"
        } else if str_eq(name, "light_red") {
            "\x1b[0;91m"
        } else if str_eq(name, "light_green") {
            "\x1b[0;92m"
        } else if str_eq(name, "light_yellow") {
            "\x1b[0;93m"
        } else if str_eq(name, "light_blue") {
            "\x1b[0;94m"
        } else if str_eq(name, "light_purple") {
            "\x1b[0;95m"
        } else if str_eq(name, "turquoise") {
            "\x1b[0;96m"
        } else if str_eq(name, "light_white") {
            "\x1b[0;97m"
        } else {
            ""
        }
    } else if str_eq(ground, "bg") {
        if str_eq(name, "black") {
            "\x1b[0;40m"
        } else if str_eq(name, "red") {
            "\x1b[0;41m"
        } else if str_eq(name, "green") {
            "\x1b[0;42m"
        } else if str_eq(name, "yellow") {
            "\x1b[0;43m"
        } else if str_eq(name, "blue") {
            "\x1b[0;44m"
        } else if str_eq(name, "magenta") {
            "\x1b[0;45m"
        } else if str_eq(name, "cyan") {
            "\x1b[0;46m"
        } else if str_eq(name, "white") {
            "\x1b[0;47m"
        } else if str_eq(name, "dark_grey") {
            "\x1b[0;100m"
        } else if str_eq(name, "light_red") {
            "\x1b[0;101m"
        } else if str_eq(name, "light_green") {
            "\x1b[0;102m"
        } else if str_eq(name, "light_yellow") {
            "\x1b[0;103m"
        } else if str_eq(name, "light_blue") {
            "\x1b[0;104m"
        } else if str_eq(name, "light_purple") {
            "\x1b[0;105m"
        } else if str_eq(name, "turquoise") {
            "\x1b[0;106m"
        } else if str_eq(name, "light_white") {
            "\x1b[0;107m"
        } else {
            ""
        }
    } else {
        ""
    }
}

} // verus!
