//! Desktop notifications of terminals: the tabs that a click on a notification
//! asks for, the unread mark and the worker's wake-up signal.
use std::collections::VecDeque;
use std::sync::mpsc::{SyncSender, TrySendError};

use vstd::prelude::*;

verus! {

/// The sending half of a bounded channel of std.
#[verifier::external_type_specification]
#[verifier::external_body]
#[verifier::reject_recursive_types(T)]
pub struct ExSyncSender<T>(SyncSender<T>);

/// How an attempt to put a signal into a channel ended.
#[derive(Debug, Clone, Copy, PartialEq, Eq, Structural)]
pub enum SignalOutcome {
    Sent,
    Full,
    Disconnected,
}

/// `SyncSender::try_send` puts a signal into the channel, or says that the
/// channel is full or that nobody receives from it. Which of these it is rests
/// on what the receiver does.
#[verifier::external_body]
fn try_signal(sender: &SyncSender<()>) -> SignalOutcome {
    match sender.try_send(()) {
        Ok(()) => SignalOutcome::Sent,
        Err(TrySendError::Full(())) => SignalOutcome::Full,
        Err(TrySendError::Disconnected(())) => SignalOutcome::Disconnected,
    }
}

/// Whether the worker will see a signal: one that is waiting stands for all.
pub fn signal_will_arrive(outcome: SignalOutcome) -> (r: bool)
    ensures
        r == (outcome == SignalOutcome::Sent || outcome == SignalOutcome::Full),
{
    match outcome {
        SignalOutcome::Sent | SignalOutcome::Full => true,
        SignalOutcome::Disconnected => false,
    }
}

/// Wakes the worker at the other end of the channel without waiting. False
/// means that the worker is gone. The answer rests on the channel's receiver,
/// so nothing is stated of it here; `signal_will_arrive` says what it is for
/// each outcome of the attempt.
pub fn enqueue_coalesced_signal(sender: &SyncSender<()>) -> bool {
    signal_will_arrive(try_signal(sender))
}

/// How many activations wait at most.
pub const MAX_PENDING_TERMINAL_NOTIFICATION_ACTIVATIONS: usize = 64;

/// The tabs whose notifications were clicked, oldest first.
pub struct ActivationQueue {
    tabs: VecDeque<String>,
}

impl View for ActivationQueue {
    type V = Seq<String>;

    closed spec fn view(&self) -> Seq<String> {
        self.tabs@
    }
}

impl ActivationQueue {
    /// No more than the allowed number of activations wait.
    #[verifier::type_invariant]
    spec fn bounded(self) -> bool {
        self.tabs@.len() <= MAX_PENDING_TERMINAL_NOTIFICATION_ACTIVATIONS
    }

    pub fn new() -> (r: ActivationQueue)
        ensures
            r@ == Seq::<String>::empty(),
    {
        ActivationQueue { tabs: VecDeque::new() }
    }
}

/// Notes that the tab's notification was clicked. Where too many activations
/// wait, the oldest is dropped.
pub fn queue_terminal_notification_activation(queue: &mut ActivationQueue, tab_id: String)
    ensures
        old(queue)@.len() < MAX_PENDING_TERMINAL_NOTIFICATION_ACTIVATIONS ==> final(queue)@ == old(
            queue,
        )@.push(tab_id),
        old(queue)@.len() >= MAX_PENDING_TERMINAL_NOTIFICATION_ACTIVATIONS ==> final(queue)@
            == old(queue)@.skip(1).push(tab_id),
        final(queue)@.len() <= MAX_PENDING_TERMINAL_NOTIFICATION_ACTIVATIONS,
{
    proof {
        use_type_invariant(&*queue);
    }
    let mut tabs: VecDeque<String> = VecDeque::new();
    std::mem::swap(&mut tabs, &mut queue.tabs);
    if tabs.len() >= MAX_PENDING_TERMINAL_NOTIFICATION_ACTIVATIONS {
        let _ = tabs.pop_front();
    }
    tabs.push_back(tab_id);
    queue.tabs = tabs;
}

/// Takes the oldest activation.
pub fn take_terminal_notification_activation(queue: &mut ActivationQueue) -> (r: Option<String>)
    ensures
        old(queue)@.len() == 0 ==> r is None && final(queue)@ == old(queue)@,
        old(queue)@.len() > 0 ==> r == Some(old(queue)@[0]) && final(queue)@ == old(
            queue,
        )@.skip(1),
{
    proof {
        use_type_invariant(&*queue);
    }
    let mut tabs: VecDeque<String> = VecDeque::new();
    std::mem::swap(&mut tabs, &mut queue.tabs);
    let taken = tabs.pop_front();
    queue.tabs = tabs;
    taken
}

/// The width and the height of the unread badge in pixels.
pub const BADGE_SIZE: usize = 16;

/// Whether a pixel of the badge is red: whether its centre lies in the disc of
/// six and a half pixels around the middle.
pub open spec fn badge_red(x: int, y: int) -> bool {
    (2 * x - 15) * (2 * x - 15) + (2 * y - 15) * (2 * y - 15) <= 169
}

pub fn windows_badge_pixel_is_red(x: usize, y: usize) -> (r: bool)
    ensures
        r == badge_red(x as int, y as int),
{
    if x > 15 || y > 15 {
        proof {
            assert(badge_red(x as int, y as int) == false) by (nonlinear_arith)
                requires
                    x > 15 || y > 15,
                    x >= 0,
                    y >= 0,
                    badge_red(x as int, y as int) == ((2 * x - 15) * (2 * x - 15) + (2 * y - 15) * (
                    2 * y - 15) <= 169),
            ;
        }
        return false;
    }
    let dx: i64 = 2 * (x as i64) - 15;
    let dy: i64 = 2 * (y as i64) - 15;
    assert(-15 <= dx <= 15 && -15 <= dy <= 15);
    assert(0 <= dx * dx <= 225 && 0 <= dy * dy <= 225) by (nonlinear_arith)
        requires
            -15 <= dx <= 15,
            -15 <= dy <= 15,
    ;
    dx * dx + dy * dy <= 169
}

/// The head of the badge's bitmap: its size, one plane, 32 bits to the pixel.
pub open spec fn badge_header() -> Seq<u8> {
    seq![
        40u8, 0, 0, 0, 16, 0, 0, 0, 32, 0, 0, 0, 1, 0, 32, 0, 0, 0, 0, 0, 0, 4, 0, 0, 0, 0, 0, 0, 0,
        0, 0, 0, 0, 0, 0, 0, 0, 0, 0, 0,
    ]
}

/// A byte of the colours: rows from the bottom up, four bytes to the pixel.
pub open spec fn badge_colour(k: int) -> u8 {
    if !badge_red((k / 4) % 16, 15 - (k / 4) / 16) {
        0
    } else if k % 4 == 0 {
        42
    } else if k % 4 == 1 {
        48
    } else if k % 4 == 2 {
        239
    } else {
        255
    }
}

/// The bits of the pixels from `x` on, `n` of them, that are not red; the first
/// is the highest.
pub open spec fn clear_bits(x: int, y: int, n: nat) -> int
    decreases n,
{
    if n == 0 {
        0
    } else {
        2 * clear_bits(x, y, (n - 1) as nat) + (if badge_red(x + n - 1, y) {
            0int
        } else {
            1int
        })
    }
}

/// A byte of the mask: rows from the bottom up, four bytes to the row, of which
/// the first two hold a bit for each pixel that is not red.
pub open spec fn badge_mask(k: int) -> u8 {
    if k % 4 < 2 {
        clear_bits(8 * (k % 4), 15 - k / 4, 8) as u8
    } else {
        0
    }
}

/// The badge as a bitmap resource.
pub open spec fn badge_resource() -> Seq<u8> {
    badge_header() + Seq::new(1024, |k: int| badge_colour(k)) + Seq::new(
        64,
        |k: int| badge_mask(k),
    )
}

fn mask_byte(x: usize, y: usize) -> (r: u8)
    requires
        x <= 8,
        y <= 15,
    ensures
        r == clear_bits(x as int, y as int, 8) as u8,
{
    let mut bits: u32 = 0;
    let mut weight: u32 = 1;
    let mut n: usize = 0;
    while n < 8
        invariant
            n <= 8,
            x <= 8,
            y <= 15,
            bits == clear_bits(x as int, y as int, n as nat),
            bits < weight,
            weight <= 256,
            n < 8 ==> weight <= 128,
            n < 7 ==> weight <= 64,
            n < 6 ==> weight <= 32,
            n < 5 ==> weight <= 16,
            n < 4 ==> weight <= 8,
            n < 3 ==> weight <= 4,
            n < 2 ==> weight <= 2,
            n < 1 ==> weight <= 1,
        decreases 8 - n,
    {
        let bit: u32 = if windows_badge_pixel_is_red(x + n, y) {
            0
        } else {
            1
        };
        bits = 2 * bits + bit;
        weight = 2 * weight;
        n += 1;
    }
    bits as u8
}

/// The red badge that marks unread notifications, as a bitmap resource.
pub fn windows_badge_icon_resource() -> (r: Vec<u8>)
    ensures
        r@ == badge_resource(),
{
    let mut resource: Vec<u8> = vec![
        40, 0, 0, 0, 16, 0, 0, 0, 32, 0, 0, 0, 1, 0, 32, 0, 0, 0, 0, 0, 0, 4, 0, 0, 0, 0, 0, 0, 0,
        0, 0, 0, 0, 0, 0, 0, 0, 0, 0, 0,
    ];
    assert(resource@ =~= badge_header() + Seq::new(0, |k: int| badge_colour(k)));
    let mut k: usize = 0;
    while k < 1024
        invariant
            k <= 1024,
            resource@ == badge_header() + Seq::new(k as nat, |k: int| badge_colour(k)),
        decreases 1024 - k,
    {
        let pixel: usize = k / 4;
        let byte: u8 = if !windows_badge_pixel_is_red(pixel % 16, 15 - pixel / 16) {
            0
        } else if k % 4 == 0 {
            42
        } else if k % 4 == 1 {
            48
        } else if k % 4 == 2 {
            239
        } else {
            255
        };
        resource.push(byte);
        k += 1;
        assert(resource@ =~= badge_header() + Seq::new(k as nat, |k: int| badge_colour(k)));
    }
    let ghost colours = resource@;
    assert(resource@ =~= colours + Seq::new(0, |k: int| badge_mask(k)));
    k = 0;
    while k < 64
        invariant
            k <= 64,
            resource@ == colours + Seq::new(k as nat, |k: int| badge_mask(k)),
        decreases 64 - k,
    {
        let byte: u8 = if k % 4 < 2 {
            mask_byte(8 * (k % 4), 15 - k / 4)
        } else {
            0
        };
        resource.push(byte);
        k += 1;
        assert(resource@ =~= colours + Seq::new(k as nat, |k: int| badge_mask(k)));
    }
    resource
}

/// The system that shows the unread mark.
#[derive(Debug, Clone, Copy, PartialEq, Eq, Structural)]
pub enum Desktop {
    MacOs,
    Windows,
    Other,
}

/// What has to be done to set or clear the unread mark.
#[derive(Debug)]
pub enum IndicatorAction {
    /// Give the dock icon this label, or none.
    DockLabel(Option<String>),
    /// Lay this bitmap resource over the window's icon in the task bar, or
    /// none.
    TaskbarOverlay(isize, Option<Vec<u8>>),
    Nothing,
}

/// Sets or clears the unread mark. A task bar entry is marked by its window.
pub fn set_unread_indicator(
    desktop: Desktop,
    unread: bool,
    window_handle: Option<isize>,
) -> (r: IndicatorAction)
    ensures
        match r {
            IndicatorAction::DockLabel(label) => desktop == Desktop::MacOs && match label {
                Some(t) => unread && t@ == "\u{2022}"@,
                None => !unread,
            },
            IndicatorAction::TaskbarOverlay(handle, icon) => desktop == Desktop::Windows
                && window_handle == Some(handle) && match icon {
                Some(bytes) => unread && bytes@ == badge_resource(),
                None => !unread,
            },
            IndicatorAction::Nothing => desktop == Desktop::Other || (desktop == Desktop::Windows
                && window_handle is None),
        },
{
    match desktop {
        Desktop::MacOs => if unread {
            IndicatorAction::DockLabel(Some("\u{2022}".to_owned()))
        } else {
            IndicatorAction::DockLabel(None)
        },
        Desktop::Windows => match window_handle {
            Some(handle) => if unread {
                IndicatorAction::TaskbarOverlay(handle, Some(windows_badge_icon_resource()))
            } else {
                IndicatorAction::TaskbarOverlay(handle, None)
            },
            None => IndicatorAction::Nothing,
        },
        Desktop::Other => IndicatorAction::Nothing,
    }
}

/// Clears the unread mark.
pub fn clear_unread_indicator(desktop: Desktop, window_handle: Option<isize>) -> (r:
    IndicatorAction)
    ensures
        match r {
            IndicatorAction::DockLabel(label) => desktop == Desktop::MacOs && label is None,
            IndicatorAction::TaskbarOverlay(handle, icon) => desktop == Desktop::Windows
                && window_handle == Some(handle) && icon is None,
            IndicatorAction::Nothing => desktop == Desktop::Other || (desktop == Desktop::Windows
                && window_handle is None),
        },
{
    set_unread_indicator(desktop, false, window_handle)
}

/// The badge is a disc: it looks the same upside down and mirrored, its middle is red and
/// its corners are clear, and what is red stays red towards the middle.
pub proof fn the_badge_is_a_disc(x: int, y: int)
    requires
        0 <= x < 16,
        0 <= y < 16,
    ensures
        badge_red(x, y) == badge_red(15 - x, y),
        badge_red(x, y) == badge_red(x, 15 - y),
        badge_red(x, y) == badge_red(y, x),
        badge_red(7, 7) && badge_red(2, 7) && !badge_red(1, 7),
        !badge_red(0, 0),
        badge_red(x, y) && x < 7 ==> badge_red(x + 1, y),
{
    assert((2 * (15 - x) - 15) * (2 * (15 - x) - 15) == (2 * x - 15) * (2 * x - 15))
        by (nonlinear_arith);
    assert((2 * (15 - y) - 15) * (2 * (15 - y) - 15) == (2 * y - 15) * (2 * y - 15))
        by (nonlinear_arith);
    assert(-1 * -1 == 1 && -11 * -11 == 121 && -13 * -13 == 169 && -15 * -15 == 225)
        by (nonlinear_arith);
    if x < 7 {
        assert((2 * (x + 1) - 15) * (2 * (x + 1) - 15) <= (2 * x - 15) * (2 * x - 15))
            by (nonlinear_arith)
            requires
                x < 7,
        ;
    }
}

/// The picture of the badge is 16 points wide and as high, four bytes to a point from the
/// lowest row up: a red point is opaque and a clear one is nothing. The mask behind it has
/// a bit for each clear point and none for a red one.
pub proof fn the_badge_is_drawn_from_below(x: int, y: int)
    requires
        0 <= x < 16,
        0 <= y < 16,
    ensures
        ({
            let icon = badge_resource();
            let at = 40 + 4 * (16 * (15 - y) + x);
            &&& icon.len() == 40 + 1024 + 64
            &&& badge_red(x, y) ==> icon[at] == 42 && icon[at + 1] == 48 && icon[at + 2] == 239
                && icon[at + 3] == 255
            &&& !badge_red(x, y) ==> icon[at] == 0 && icon[at + 1] == 0 && icon[at + 2] == 0
                && icon[at + 3] == 0
        }),
{
    let icon = badge_resource();
    let k = 4 * (16 * (15 - y) + x);
    let n = 16 * (15 - y) + x;
    assert(n % 16 == x && n / 16 == 15 - y);
    assert((k / 4) == n && ((k + 1) / 4) == n && ((k + 2) / 4) == n && ((k + 3) / 4) == n);
    assert(icon[40 + k] == badge_colour(k));
    assert(icon[40 + k + 1] == badge_colour(k + 1));
    assert(icon[40 + k + 2] == badge_colour(k + 2));
    assert(icon[40 + k + 3] == badge_colour(k + 3));
}

proof fn lemma_clear_bits(x: int, y: int, n: nat)
    requires
        n <= 8,
    ensures
        0 <= clear_bits(x, y, n) < 256,
        n <= 1 ==> clear_bits(x, y, n) < 2,
        n == 2 ==> clear_bits(x, y, n) < 4,
        n == 3 ==> clear_bits(x, y, n) < 8,
        n == 4 ==> clear_bits(x, y, n) < 16,
        n == 5 ==> clear_bits(x, y, n) < 32,
        n == 6 ==> clear_bits(x, y, n) < 64,
        n == 7 ==> clear_bits(x, y, n) < 128,
    decreases n,
{
    if n > 0 {
        lemma_clear_bits(x, y, (n - 1) as nat);
    }
}

/// In a row of the mask the first points stand for the highest bits, and the last point of
/// a byte for the lowest: it is set where that point is clear.
pub proof fn the_mask_has_the_clear_points(y: int, k: int)
    requires
        0 <= y < 16,
        0 <= k < 2,
    ensures
        ({
            let byte = badge_resource()[40 + 1024 + 4 * (15 - y) + k];
            &&& byte as int % 2 == (if badge_red(8 * k + 7, y) {
                0int
            } else {
                1
            })
            &&& (byte as int >= 128) <==> !badge_red(8 * k, y)
        }),
{
    let m = 4 * (15 - y) + k;
    let icon = badge_resource();
    assert(icon[1064 + m] == badge_mask(m));
    assert(m % 4 == k && m / 4 == 15 - y);
    let x = 8 * k;
    lemma_clear_bits(x, y, 8);
    reveal_with_fuel(clear_bits, 9);
}

} // verus!
