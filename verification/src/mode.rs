//! The manual-mode banner over the main area: its title, description,
//! selection count and which of its buttons are enabled.
use vstd::prelude::*;
use crate::scale::decimal;

verus! {

/// What the banner of a manual mode shows and allows.
pub struct BannerText {
    pub title: String,
    pub description: String,
    /// "No selections", "1 selection" or "N selections".
    pub count_label: String,
    /// "Start Inpaint (N)" or "Start OCR (N)".
    pub start_label: String,
    /// Start is enabled with a selection while no bulk job runs.
    pub can_start: bool,
    /// Reset is enabled with a selection.
    pub can_reset: bool,
}

/// The label counting `count` selections.
pub open spec fn count_label_text(count: nat) -> Seq<char> {
    if count == 0 {
        "No selections"@
    } else if count == 1 {
        "1 selection"@
    } else {
        decimal(count) + " selections"@
    }
}

/// The label of the start button with `count` selections.
pub open spec fn start_label_text(inpaint: bool, count: nat) -> Seq<char> {
    (if inpaint {
        "Start Inpaint ("@
    } else {
        "Start OCR ("@
    }) + decimal(count) + ")"@
}

/// The banner of the manual inpaint (`inpaint`) or OCR mode with `count`
/// selections while a bulk job is (`busy`) or is not running.
pub fn manual_banner_text(inpaint: bool, count: usize, busy: bool) -> (r: BannerText)
    ensures
        r.title@ == (if inpaint {
            "Manual Inpaint Mode"@
        } else {
            "Manual OCR Mode"@
        }),
        r.description@ == (if inpaint {
            "Drag on the image to select areas to inpaint • Multiple selections"@
        } else {
            "Drag on the image to select text areas to OCR • Multiple selections"@
        }),
        r.count_label@ == count_label_text(count as nat),
        r.start_label@ == start_label_text(inpaint, count as nat),
        r.can_start == (count > 0 && !busy),
        r.can_reset == (count > 0),
{
    let title = if inpaint {
        "Manual Inpaint Mode".to_owned()
    } else {
        "Manual OCR Mode".to_owned()
    };
    let description = if inpaint {
        "Drag on the image to select areas to inpaint • Multiple selections".to_owned()
    } else {
        "Drag on the image to select text areas to OCR • Multiple selections".to_owned()
    };
    let count_label = if count == 0 {
        "No selections".to_owned()
    } else if count == 1 {
        "1 selection".to_owned()
    } else {
        let mut s = String::new();
        crate::scale::push_decimal(&mut s, count);
        crate::chars::push_chars(&mut s, " selections");
        assert(s@ =~= decimal(count as nat) + " selections"@);
        s
    };
    let mut start_label = if inpaint {
        "Start Inpaint (".to_owned()
    } else {
        "Start OCR (".to_owned()
    };
    crate::scale::push_decimal(&mut start_label, count);
    crate::chars::push_chars(&mut start_label, ")");
    BannerText {
        title,
        description,
        count_label,
        start_label,
        can_start: count > 0 && !busy,
        can_reset: count > 0,
    }
}

} // verus!
