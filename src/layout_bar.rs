use vstd::prelude::*;

verus! {

/// The top-level layouts.
#[derive(Debug, Clone, Copy, PartialEq, Eq, Structural)]
pub enum ActiveLayout {
    Browser,
    Connections,
}

/// The bar that names the layouts and marks the active one.
#[derive(Debug)]
pub struct LayoutBar {
    pub active: ActiveLayout,
}

/// The texts of the bar, left to right, before the padding.
pub open spec fn bar_texts(active: ActiveLayout) -> Seq<Seq<char>> {
    seq![
        " "@,
        if active == ActiveLayout::Browser { "[Browser]"@ } else { " Browser "@ },
        "  "@,
        if active == ActiveLayout::Connections { "[Connections]"@ } else { " Connections "@ },
    ]
}

impl LayoutBar {
    pub fn new() -> (r: Self)
        ensures
            r.active == ActiveLayout::Browser,
    {
        LayoutBar { active: ActiveLayout::Browser }
    }

    /// The texts of the bar, left to right, the last one padding it with
    /// spaces to `width` characters.
    pub fn segments(&self, width: u16) -> (r: Vec<String>)
        ensures
            r@.len() == 5,
            forall|i: int| 0 <= i < 4 ==> r@[i]@ == bar_texts(self.active)[i],
            r@[4]@ == Seq::new(
                (if width >= 25 { width - 25 } else { 0 }) as nat,
                |i: int| ' ',
            ),
    {
        proof {
            reveal_strlit(" ");
            reveal_strlit("[Browser]");
            reveal_strlit(" Browser ");
            reveal_strlit("  ");
            reveal_strlit("[Connections]");
            reveal_strlit(" Connections ");
        }
        let mut r: Vec<String> = Vec::new();
        r.push(String::from_str(" "));
        if self.active == ActiveLayout::Browser {
            r.push(String::from_str("[Browser]"));
        } else {
            r.push(String::from_str(" Browser "));
        }
        r.push(String::from_str("  "));
        if self.active == ActiveLayout::Connections {
            r.push(String::from_str("[Connections]"));
        } else {
            r.push(String::from_str(" Connections "));
        }
        let pad: u16 = if width >= 25 { width - 25 } else { 0 };
        let mut padding = String::new();
        let mut i: u16 = 0;
        while i < pad
            invariant
                i <= pad,
                padding@ == Seq::new(i as nat, |k: int| ' '),
                " "@ == seq![' '],
            decreases pad - i,
        {
            padding.append(" ");
            assert(padding@ =~= Seq::new((i + 1) as nat, |k: int| ' '));
            i = i + 1;
        }
        r.push(padding);
        r
    }
}

} // verus!
