//! Frames grabbed from a monitor, and the conversion the encoder needs.
use vstd::prelude::*;
use vstd::string::*;

use crate::text::{decimal, push_char, unsigned_text};

verus! {

/// One grabbed frame.
pub struct CapturedFrame {
    pub width: u32,
    pub height: u32,
    /// RGBA, row-major.
    pub rgba: Vec<u8>,
}

/// How a monitor is named in the lists: `name (W×H)`.
pub open spec fn monitor_display(name: Seq<char>, width: u32, height: u32) -> Seq<char> {
    name + seq![' ', '('] + decimal(width as int) + seq!['×'] + decimal(height as int) + seq![
        ')',
    ]
}

/// Writes `name (W×H)`.
pub fn monitor_label(name: &str, width: u32, height: u32) -> (r: String)
    ensures
        r@ == monitor_display(name@, width, height),
{
    let mut r = String::from_str(name);
    push_char(&mut r, ' ');
    push_char(&mut r, '(');
    let w = unsigned_text(width);
    r.append(w.as_str());
    push_char(&mut r, '×');
    let h = unsigned_text(height);
    r.append(h.as_str());
    push_char(&mut r, ')');
    assert(r@ =~= monitor_display(name@, width, height));
    r
}

/// A monitor as the server lists it.
pub struct MonitorInfo {
    pub index: usize,
    pub name: String,
    pub width: u32,
    pub height: u32,
}

/// The text of the monitor picker: the label of the selected monitor, or
/// `Écran 0` when the selection is not in the list.
pub fn selected_monitor_label(monitors: &[MonitorInfo], selected: usize) -> (r: String)
    ensures
        selected < monitors@.len() ==> r@ == monitor_display(
            monitors@[selected as int].name@,
            monitors@[selected as int].width,
            monitors@[selected as int].height,
        ),
        selected >= monitors@.len() ==> r@ == "Écran 0"@,
{
    if selected < monitors.len() {
        let m = &monitors[selected];
        monitor_label(m.name.as_str(), m.width, m.height)
    } else {
        String::from_str("Écran 0")
    }
}

/// Which monitor to grab.
pub struct ScreenCapture {
    monitor_index: usize,
}

/// Why no frame could be grabbed.
#[derive(Debug, Clone, Copy, PartialEq, Eq, Structural)]
pub enum CaptureError {
    /// The system reports no monitor.
    NoMonitor,
}

impl ScreenCapture {
    /// The monitor index asked for.
    pub closed spec fn spec_monitor_index(&self) -> usize {
        self.monitor_index
    }

    pub fn new(monitor_index: usize) -> (c: Self)
        ensures
            c.spec_monitor_index() == monitor_index,
    {
        ScreenCapture { monitor_index }
    }

    /// The monitor that a capture grabs among `monitor_count` monitors: the one
    /// asked for when it exists, else the first; none when there is no monitor.
    pub fn monitor_to_capture(&self, monitor_count: usize) -> (r: Result<usize, CaptureError>)
        ensures
            monitor_count == 0 ==> r == Err::<usize, CaptureError>(CaptureError::NoMonitor),
            monitor_count > 0 && self.spec_monitor_index() < monitor_count ==> r == Ok::<
                usize,
                CaptureError,
            >(self.spec_monitor_index()),
            monitor_count > 0 && self.spec_monitor_index() >= monitor_count ==> r == Ok::<
                usize,
                CaptureError,
            >(0),
    {
        if monitor_count == 0 {
            Err(CaptureError::NoMonitor)
        } else if self.monitor_index < monitor_count {
            Ok(self.monitor_index)
        } else {
            Ok(0)
        }
    }
}

/// RGB bytes of RGBA pixels: each whole group of four bytes gives its first
/// three; a trailing partial group is dropped.
pub open spec fn rgb_of_rgba(rgba: Seq<u8>) -> Seq<u8> {
    Seq::new(((rgba.len() / 4) * 3) as nat, |j: int| rgba[4 * (j / 3) + j % 3])
}

proof fn lemma_rgb_index(p: int, k: int)
    requires
        0 <= p,
        0 <= k < 3,
    ensures
        (3 * p + k) / 3 == p,
        (3 * p + k) % 3 == k,
{
    assert((3 * p + k) / 3 == p && (3 * p + k) % 3 == k) by (nonlinear_arith)
        requires
            0 <= p,
            0 <= k < 3,
    ;
}

/// Converts RGBA to RGB (strips the alpha byte, 3 bytes per pixel).
pub fn rgba_to_rgb(rgba: &[u8]) -> (rgb: Vec<u8>)
    ensures
        rgb@ == rgb_of_rgba(rgba@),
{
    let n = rgba.len();
    let pixels = n / 4;
    let mut rgb: Vec<u8> = Vec::new();
    let mut p: usize = 0;
    while p < pixels
        invariant
            n == rgba@.len(),
            pixels == n / 4,
            p <= pixels,
            rgb@.len() == 3 * p,
            forall|j: int| 0 <= j < 3 * p ==> rgb@[j] == rgba@[4 * (j / 3) + j % 3],
        decreases pixels - p,
    {
        assert(4 * p + 3 < n) by (nonlinear_arith)
            requires
                p < pixels,
                pixels == n / 4,
        ;
        let base = 4 * p;
        rgb.push(rgba[base]);
        rgb.push(rgba[base + 1]);
        rgb.push(rgba[base + 2]);
        proof {
            assert forall|j: int| 0 <= j < 3 * (p + 1) implies rgb@[j] == rgba@[4 * (j / 3) + j
                % 3] by {
                if j >= 3 * p {
                    lemma_rgb_index(p as int, j - 3 * p);
                }
            }
        }
        p = p + 1;
    }
    assert(rgb@ =~= rgb_of_rgba(rgba@));
    rgb
}

} // verus!
