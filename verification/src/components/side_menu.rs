//! The side menu: what changes with its being hidden.
use vstd::prelude::*;
use vstd::string::StringExecFns;

verus! {

/// How the panel of the menu is displayed: not at all while it is hidden.
pub fn panel_display(hidden: bool) -> (display: &'static str)
    ensures
        display@ == (if hidden {
            "none"@
        } else {
            "flex"@
        }),
{
    if hidden {
        "none"
    } else {
        "flex"
    }
}

/// The style of the arrow on the button: turned round while the menu is shown.
pub fn arrow_style(hidden: bool) -> (style: String)
    ensures
        style@ == "margin: 5px;"@ + (if hidden {
            ""@
        } else {
            "transform:rotate(180deg);"@
        }),
{
    let mut style = String::from_str("margin: 5px;");
    if !hidden {
        style.append("transform:rotate(180deg);");
    }
    proof {
        reveal_strlit("");
        assert(hidden ==> style@ =~= "margin: 5px;"@ + ""@);
    }
    style
}

} // verus!
