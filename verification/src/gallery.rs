//! The image viewer of a package's gallery: which image is open and how the
//! arrows move through the others.
use vstd::prelude::*;

use crate::text::{decimal, decimal_string};

verus! {

/// The image the viewer opens on: the one pressed, kept within the gallery.
pub open spec fn opening_index(start: nat, len: nat) -> nat {
    if len == 0 {
        0
    } else if start < len {
        start
    } else {
        (len - 1) as nat
    }
}

pub fn open_at(start: usize, len: usize) -> (r: usize)
    ensures
        r as nat == opening_index(start as nat, len as nat),
{
    if len == 0 {
        0
    } else if start < len {
        start
    } else {
        len - 1
    }
}

/// The image an arrow (or arrow key) leads to: one back while there is an
/// image before, one on while there is one after; otherwise it stays.
pub open spec fn stepped(index: nat, len: nat, forward: bool) -> nat {
    if forward {
        if index + 1 < len {
            index + 1
        } else {
            index
        }
    } else if index > 0 {
        (index - 1) as nat
    } else {
        index
    }
}

pub fn step(index: usize, len: usize, forward: bool) -> (r: usize)
    ensures
        r as nat == stepped(index as nat, len as nat, forward),
{
    if forward {
        if index < len && index + 1 < len {
            index + 1
        } else {
            index
        }
    } else if index > 0 {
        index - 1
    } else {
        index
    }
}

/// Stepping forward and then back returns to the same image, when there was
/// an image after it.
pub proof fn law_forward_then_back(index: nat, len: nat)
    requires
        index + 1 < len,
    ensures
        stepped(stepped(index, len, true), len, false) == index,
{
}

/// Stepping never leaves the gallery.
pub proof fn law_step_stays_inside(index: nat, len: nat, forward: bool)
    requires
        index < len,
    ensures
        stepped(index, len, forward) < len,
{
}

/// The viewer's header: the image's title, or "Image n"; and "i of n" when
/// the gallery has more than one image.
pub fn viewer_header(title: Option<&String>, index: usize, len: usize) -> (r: (String, Option<String>))
    requires
        index < len,
    ensures
        r.0@ == match title {
            Some(t) => t@,
            None => "Image "@ + decimal(index as nat + 1),
        },
        match r.1 {
            Some(c) => len > 1 && c@ == decimal(index as nat + 1) + " of "@ + decimal(len as nat),
            None => len <= 1,
        },
{
    let heading = match title {
        Some(t) => t.clone(),
        None => crate::text::join2("Image ", decimal_string((index + 1) as u64).as_str()),
    };
    let counter = if len > 1 {
        let mut c = decimal_string((index + 1) as u64);
        c.append(" of ");
        c.append(decimal_string(len as u64).as_str());
        Some(c)
    } else {
        None
    };
    (heading, counter)
}

} // verus!
