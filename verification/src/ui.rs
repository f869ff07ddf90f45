//! Figures and labels of the `upapasta` terminal interface.

use vstd::prelude::*;

use crate::text::{chars_of, decimal, push_char, push_chars, push_decimal};
use vstd::string::{StrSliceExecFns, StringSliceAdditionalSpecFns};
use vstd::utf8::{decode_utf8, is_char_boundary};

verus! {

/// `2` to the power `k`.
pub open spec fn two_to(k: nat) -> nat
    decreases k,
{
    if k == 0 { 1 } else { 2 * two_to((k - 1) as nat) }
}

/// `n / d` rounded to the nearest integer, a tie going to the even one.
pub open spec fn round_half_even(n: nat, d: nat) -> nat
    recommends
        d > 0,
{
    let q = n / d;
    let r = n % d;
    if 2 * r > d || (2 * r == d && q % 2 == 1) {
        q + 1
    } else {
        q
    }
}

/// Number of binary digits of `n` (0 for 0).
pub open spec fn bit_length(n: nat) -> nat
    decreases n,
{
    if n == 0 { 0 } else { 1 + bit_length(n / 2) }
}

/// The integer that `n as f64` holds: `n` rounded to 53 significant bits,
/// a tie going to the even significand.
pub open spec fn as_f64_value(n: nat) -> nat {
    if bit_length(n) <= 53 {
        n
    } else {
        let s = (bit_length(n) - 53) as nat;
        round_half_even(n, two_to(s)) * two_to(s)
    }
}

/// The text `format_bytes` gives for `b` bytes, as the float formatting it
/// is written with produces it: GB with one decimal from 1 GiB, whole MB
/// from 1 MiB, whole KB from 1 KiB, else bytes. Floats are formatted from
/// their exact value, a tie rounding to even.
pub open spec fn bytes_text(b: nat) -> Seq<char> {
    if b >= two_to(30) {
        let tenths = round_half_even(10 * as_f64_value(b), two_to(30));
        decimal(tenths / 10) + seq!['.'] + decimal(tenths % 10) + "GB"@
    } else if b >= two_to(20) {
        decimal(round_half_even(b, two_to(20))) + "MB"@
    } else if b >= 1024 {
        decimal(round_half_even(b, 1024)) + "KB"@
    } else {
        decimal(b) + "B"@
    }
}

proof fn lemma_two_to_add(a: nat, b: nat)
    ensures
        two_to(a + b) == two_to(a) * two_to(b),
    decreases a,
{
    if a > 0 {
        let a1 = (a - 1) as nat;
        lemma_two_to_add(a1, b);
        assert(two_to(a) == 2 * two_to(a1));
        assert(a + b == (a1 + b) + 1);
        assert(two_to(a + b) == 2 * two_to(a1 + b));
        let x = two_to(a1);
        let y = two_to(b);
        assert(2 * (x * y) == (2 * x) * y) by (nonlinear_arith);
    } else {
        assert(a + b == b);
        assert(two_to(a) == 1);
    }
}

proof fn lemma_two_to_values()
    ensures
        two_to(10) == 1024,
        two_to(20) == 1048576,
        two_to(30) == 1073741824,
        two_to(53) == 9007199254740992,
        two_to(64) == 18446744073709551616,
{
    reveal_with_fuel(two_to, 11);
    assert(two_to(3) == 8);
    assert(two_to(4) == 16);
    assert(two_to(10) == 1024);
    lemma_two_to_add(10, 10);
    lemma_two_to_add(20, 10);
    assert(two_to(20) == 1048576);
    lemma_two_to_add(30, 20);
    assert(two_to(30) == 1073741824);
    assert(two_to(50) == 1125899906842624);
    lemma_two_to_add(50, 3);
    assert(two_to(53) == 9007199254740992);
    lemma_two_to_add(30, 30);
    assert(two_to(60) == 1152921504606846976);
    lemma_two_to_add(60, 4);
}

proof fn lemma_two_to_pos(k: nat)
    ensures
        two_to(k) > 0,
    decreases k,
{
    if k > 0 {
        lemma_two_to_pos((k - 1) as nat);
    }
}

proof fn lemma_two_to_mono(a: nat, b: nat)
    requires
        a <= b,
    ensures
        two_to(a) <= two_to(b),
    decreases b,
{
    if a < b {
        lemma_two_to_mono(a, (b - 1) as nat);
        lemma_two_to_pos((b - 1) as nat);
    }
}

/// `n < 2^bit_length(n)` and, for `n > 0`, `2^(bit_length(n) - 1) <= n`.
proof fn lemma_bit_length_bounds(n: nat)
    ensures
        n < two_to(bit_length(n)),
        n > 0 ==> two_to((bit_length(n) - 1) as nat) <= n,
    decreases n,
{
    if n > 0 {
        lemma_bit_length_bounds(n / 2);
        lemma_two_to_pos(bit_length(n / 2));
    }
}

/// `round_half_even`, computed.
fn round_div(n: u128, d: u128) -> (r: u128)
    requires
        0 < d <= 0x1_0000_0000_0000_0000,
        n <= 0x10_0000_0000_0000_0000,
    ensures
        r == round_half_even(n as nat, d as nat),
{
    let q = n / d;
    let m = n % d;
    if 2 * m > d || (2 * m == d && q % 2 == 1) {
        assert(q + 1 <= n + 1) by (nonlinear_arith)
            requires
                q == n / d,
                d > 0,
        ;
        q + 1
    } else {
        q
    }
}

/// `n as f64`, as an integer.
fn f64_value(n: u64) -> (r: u128)
    ensures
        r == as_f64_value(n as nat),
        r < 0x1_0000_0000_0000_1000,
{
    proof {
        lemma_two_to_values();
        lemma_bit_length_bounds(n as nat);
        if bit_length(n as nat) > 64 {
            lemma_two_to_mono(64, (bit_length(n as nat) - 1) as nat);
        }
    }
    let mut len: u32 = 0;
    let mut v: u64 = n;
    while v > 0
        invariant
            bit_length(n as nat) == len + bit_length(v as nat),
            bit_length(n as nat) <= 64,
        decreases v,
    {
        v = v / 2;
        len = len + 1;
    }
    if len <= 53 {
        return n as u128;
    }
    let s = len - 53;
    let mut d: u128 = 1;
    let mut k: u32 = 0;
    while k < s
        invariant
            k <= s,
            s <= 11,
            d == two_to(k as nat),
            1 <= d <= 2048,
        decreases s - k,
    {
        proof {
            lemma_two_to_mono((k + 1) as nat, 11);
            reveal_with_fuel(two_to, 12);
        }
        d = d * 2;
        k = k + 1;
    }
    let q = round_div(n as u128, d);
    proof {
        lemma_two_to_pos(s as nat);
        assert(q <= (n as nat) / (d as nat) + 1);
        assert(q * d <= n + d) by (nonlinear_arith)
            requires
                q <= (n as nat) / (d as nat) + 1,
                d > 0,
        ;
    }
    q * d
}

/// A byte count as a short size: `1.5GB`, `12MB`, `3KB` or `512B`.
pub fn format_bytes(b: u64) -> (r: String)
    ensures
        r@ == bytes_text(b as nat),
{
    proof {
        lemma_two_to_values();
    }
    let mut r = String::new();
    if b >= 1_073_741_824 {
        let v = f64_value(b);
        let x = 10 * v;
        let tenths = round_div(x, 1_073_741_824);
        proof {
            assert(x / 1_073_741_824 < 0x40_0000_0000) by (nonlinear_arith)
                requires
                    x < 0xa_0000_0000_0000_a000u128,
            ;
            assert(tenths <= x / 1_073_741_824 + 1);
        }
        push_decimal(&mut r, (tenths / 10) as u64);
        push_char(&mut r, '.');
        push_decimal(&mut r, (tenths % 10) as u64);
        push_chars(&mut r, "GB");
    } else if b >= 1_048_576 {
        let n = round_div(b as u128, 1_048_576);
        proof {
            assert((b as nat) / 1_048_576 < 1024) by (nonlinear_arith)
                requires
                    b < 1_073_741_824,
            ;
        }
        push_decimal(&mut r, n as u64);
        push_chars(&mut r, "MB");
    } else if b >= 1024 {
        let n = round_div(b as u128, 1024);
        proof {
            assert((b as nat) / 1024 < 1024) by (nonlinear_arith)
                requires
                    b < 1_048_576,
            ;
        }
        push_decimal(&mut r, n as u64);
        push_chars(&mut r, "KB");
    } else {
        push_decimal(&mut r, b);
        push_chars(&mut r, "B");
    }
    r
}

/// The colours the interface picks by meaning.
#[derive(Clone, Copy, PartialEq, Eq, Structural, Debug)]
pub enum Tint {
    Magenta,
    Blue,
    Yellow,
    Cyan,
    Green,
    Red,
    DarkGray,
}

/// How the screen is laid out for its size.
#[derive(Clone, Copy, PartialEq, Eq, Structural, Debug)]
pub enum ScreenLayout {
    /// Under 40 columns or 10 rows: only a notice is shown.
    TooSmall,
    /// Under 20 rows: tabs, content and a slim status line, no header.
    Compact,
    /// Header, tabs, content and status bar.
    Full,
}

/// The layout for a screen of `width` columns and `height` rows.
pub fn screen_layout(width: u16, height: u16) -> (r: ScreenLayout)
    ensures
        r == if width < 40 || height < 10 {
            ScreenLayout::TooSmall
        } else if height < 20 {
            ScreenLayout::Compact
        } else {
            ScreenLayout::Full
        },
{
    if width < 40 || height < 10 {
        ScreenLayout::TooSmall
    } else if height < 20 {
        ScreenLayout::Compact
    } else {
        ScreenLayout::Full
    }
}

/// The notice shown on a screen too small to use.
pub fn too_small_text(width: u16, height: u16) -> (r: String)
    ensures
        r@ == "Terminal too small\n"@ + decimal(width as nat) + "x"@ + decimal(height as nat)
            + " — need 40x10"@,
{
    let mut r = String::new();
    push_chars(&mut r, "Terminal too small\n");
    push_decimal(&mut r, width as u64);
    push_chars(&mut r, "x");
    push_decimal(&mut r, height as u64);
    push_chars(&mut r, " — need 40x10");
    assert(r@ =~= "Terminal too small\n"@ + decimal(width as nat) + "x"@ + decimal(height as nat)
        + " — need 40x10"@);
    r
}

/// The screens of the interface, one per tab.
#[derive(Clone, Copy, PartialEq, Eq, Structural, Debug)]
pub enum AppState {
    Dashboard,
    Browser,
    History,
    Config,
}

/// The position of a screen's tab.
pub fn tab_index(state: AppState) -> (r: usize)
    ensures
        r == match state {
            AppState::Dashboard => 0usize,
            AppState::Browser => 1usize,
            AppState::History => 2usize,
            AppState::Config => 3usize,
        },
{
    match state {
        AppState::Dashboard => 0,
        AppState::Browser => 1,
        AppState::History => 2,
        AppState::Config => 3,
    }
}

/// What the left panel of the dashboard shows.
#[derive(Clone, Copy, PartialEq, Eq, Structural, Debug)]
pub enum DashboardPanel {
    /// Per-file progress of the running upload.
    FileProgress,
    /// The settings the queued upload will use.
    Settings,
    /// How to queue files.
    Idle,
}

/// The dashboard's left panel: progress while an upload with files runs,
/// else the settings when files are queued, else the idle help.
pub fn dashboard_panel(uploading: bool, progress_files: usize, queued: usize) -> (r: DashboardPanel)
    ensures
        r == if uploading && progress_files > 0 {
            DashboardPanel::FileProgress
        } else if queued > 0 {
            DashboardPanel::Settings
        } else {
            DashboardPanel::Idle
        },
{
    if uploading && progress_files > 0 {
        DashboardPanel::FileProgress
    } else if queued > 0 {
        DashboardPanel::Settings
    } else {
        DashboardPanel::Idle
    }
}

/// `n` as at least two digits (`{:02}`).
pub open spec fn two_digits(n: nat) -> Seq<char> {
    if n < 10 { seq!['0'] + decimal(n) } else { decimal(n) }
}

/// The time-left label: `ETA m:ss`, or `ETA --:--` when unknown.
pub open spec fn eta_text(secs: Option<u64>) -> Seq<char> {
    match secs {
        Some(s) => "ETA "@ + decimal((s / 60) as nat) + ":"@ + two_digits((s % 60) as nat),
        None => "ETA --:--"@,
    }
}

/// The time-left label for `secs` seconds.
pub fn eta_label(secs: Option<u64>) -> (r: String)
    ensures
        r@ == eta_text(secs),
{
    let mut r = String::new();
    match secs {
        Some(s) => {
            push_chars(&mut r, "ETA ");
            push_decimal(&mut r, s / 60);
            push_chars(&mut r, ":");
            let sec = s % 60;
            if sec < 10 {
                push_char(&mut r, '0');
            }
            push_decimal(&mut r, sec);
            assert(r@ =~= eta_text(secs));
        },
        None => {
            push_chars(&mut r, "ETA --:--");
        },
    }
    r
}

/// How many files the per-file progress panel has room for: two rows per
/// file (name and gauge), at least one file, no more than there are; none
/// when there are no files or no rows.
pub fn files_shown(files: usize, rows: usize) -> (r: usize)
    ensures
        r == if files == 0 || rows == 0 {
            0
        } else {
            let room = if rows / 2 >= 1 { rows / 2 } else { 1 };
            if files <= room { files } else { room }
        },
{
    if files == 0 || rows == 0 {
        return 0;
    }
    let room = if rows / 2 >= 1 { rows / 2 } else { 1 };
    if files <= room { files } else { room }
}

/// The state of one file of a running upload.
#[derive(Clone, Copy, PartialEq, Eq, Structural, Debug)]
pub enum FileStatus {
    Done,
    Failed,
    Active,
    Pending,
}

/// The marker and colour of a file's state.
pub open spec fn status_mark(status: FileStatus) -> (Seq<char>, Tint) {
    match status {
        FileStatus::Done => ("✓"@, Tint::Green),
        FileStatus::Failed => ("✗"@, Tint::Red),
        FileStatus::Active => ("▶"@, Tint::Cyan),
        FileStatus::Pending => (" "@, Tint::DarkGray),
    }
}

/// The marker and colour shown for a file's state.
pub fn file_status_mark(status: FileStatus) -> (r: (String, Tint))
    ensures
        r.0@ == status_mark(status).0,
        r.1 == status_mark(status).1,
{
    let mut m = String::new();
    match status {
        FileStatus::Done => {
            push_chars(&mut m, "✓");
            (m, Tint::Green)
        },
        FileStatus::Failed => {
            push_chars(&mut m, "✗");
            (m, Tint::Red)
        },
        FileStatus::Active => {
            push_chars(&mut m, "▶");
            (m, Tint::Cyan)
        },
        FileStatus::Pending => {
            push_chars(&mut m, " ");
            (m, Tint::DarkGray)
        },
    }
}

/// A file name shortened to fit `max` bytes of room: when it is longer than
/// `max` bytes and `max > 3`, its first `max - 1` bytes followed by `…`;
/// else the name itself. The cut must fall between two characters.
pub fn short_file_name(name: &str, max: usize) -> (r: String)
    requires
        name.len() > max && max > 3 ==> is_char_boundary(name.spec_bytes(), max - 1),
    ensures
        name.len() > max && max > 3 ==> r@ == decode_utf8(name.spec_bytes().take(max - 1)) + "…"@,
        !(name.len() > max && max > 3) ==> r@ == name@,
{
    broadcast use vstd::utf8::group_utf8_lib;

    if name.len() > max && max > 3 {
        let (head, _) = name.split_at(max - 1);
        let mut r = String::new();
        push_chars(&mut r, head);
        proof {
            assert(head.spec_bytes() =~= name.spec_bytes().take(max - 1));
            vstd::utf8::encode_utf8_decode_utf8(head@);
            assert(decode_utf8(name.spec_bytes().take(max - 1)) == head@);
        }
        push_chars(&mut r, "…");
        r
    } else {
        let mut r = String::new();
        push_chars(&mut r, name);
        r
    }
}

/// The status line while an upload runs: the status message, then the keys.
pub open spec fn upload_help(message: Seq<char>, paused: bool) -> Seq<char> {
    message + "  •  "@ + (if paused { "p: resume"@ } else { "p: pause"@ })
        + "  •  x: cancel  •  Tab: switch  •  q: quit"@
}

/// The status line while an upload runs.
pub fn upload_help_text(message: &str, paused: bool) -> (r: String)
    ensures
        r@ == upload_help(message@, paused),
{
    let mut r = String::new();
    push_chars(&mut r, message);
    push_chars(&mut r, "  •  ");
    if paused {
        push_chars(&mut r, "p: resume");
    } else {
        push_chars(&mut r, "p: pause");
    }
    push_chars(&mut r, "  •  x: cancel  •  Tab: switch  •  q: quit");
    assert(r@ =~= upload_help(message@, paused));
    r
}

/// The search bar of the history screen: its text and border colour.
pub open spec fn search_bar(searching: bool, query: Seq<char>) -> (Seq<char>, Tint) {
    if searching {
        (" /"@ + query + "_"@, Tint::Yellow)
    } else if query.len() == 0 {
        (" Press / to search, s for stats, Tab to switch tab"@, Tint::DarkGray)
    } else {
        (" Filter: "@ + query + "  (/ to edit, Esc to clear)"@, Tint::Cyan)
    }
}

/// The search bar's text and border colour while typing or filtering by
/// `query`.
pub fn search_bar_view(searching: bool, query: &str) -> (r: (String, Tint))
    ensures
        r.0@ == search_bar(searching, query@).0,
        r.1 == search_bar(searching, query@).1,
{
    let mut t = String::new();
    if searching {
        push_chars(&mut t, " /");
        push_chars(&mut t, query);
        push_chars(&mut t, "_");
        (t, Tint::Yellow)
    } else if query.is_empty() {
        push_chars(&mut t, " Press / to search, s for stats, Tab to switch tab");
        (t, Tint::DarkGray)
    } else {
        push_chars(&mut t, " Filter: ");
        push_chars(&mut t, query);
        push_chars(&mut t, "  (/ to edit, Esc to clear)");
        (t, Tint::Cyan)
    }
}

/// The title of the history screen for `records` uploads.
pub fn history_title(records: usize) -> (r: String)
    ensures
        r@ == " History ("@ + decimal(records as nat) + " records) "@,
{
    let mut r = String::new();
    push_chars(&mut r, " History (");
    push_decimal(&mut r, records as u64);
    push_chars(&mut r, " records) ");
    r
}

/// `s` padded with spaces on the right to `width` characters (`{:<width}`).
pub open spec fn padded(s: Seq<char>, width: nat) -> Seq<char> {
    if s.len() >= width {
        s
    } else {
        s + Seq::new((width - s.len()) as nat, |i: int| ' ')
    }
}

/// `s` padded to `width` characters.
pub fn pad_right(s: &str, width: usize) -> (r: String)
    ensures
        r@ == padded(s@, width as nat),
{
    let mut r = String::new();
    push_chars(&mut r, s);
    let n = s.unicode_len();
    let mut k: usize = n;
    while k < width
        invariant
            n == s@.len(),
            n <= k <= width || (k == n && n >= width),
            r@ == s@ + Seq::new((k - n) as nat, |i: int| ' '),
        decreases width - k,
    {
        push_char(&mut r, ' ');
        assert(Seq::new((k + 1 - n) as nat, |i: int| ' ') =~= Seq::new((k - n) as nat, |i: int| ' ').push(' '));
        k = k + 1;
    }
    assert(r@ =~= padded(s@, width as nat));
    r
}

/// The name column of the history list: names over 34 bytes cut to their
/// first 33 bytes and `…`, then padded to 35 characters. The cut must fall
/// between two characters.
pub fn history_name_cell(name: &str) -> (r: String)
    requires
        name.len() > 34 ==> is_char_boundary(name.spec_bytes(), 33),
    ensures
        name.len() > 34 ==> r@ == padded(decode_utf8(name.spec_bytes().take(33)) + "…"@, 35),
        name.len() <= 34 ==> r@ == padded(name@, 35),
{
    let short = short_file_name(name, 34);
    pad_right(short.as_str(), 35)
}

/// The colour of an upload's category.
pub fn category_color(category: &str) -> (r: Tint)
    ensures
        r == if category@ == "Movie"@ {
            Tint::Magenta
        } else if category@ == "TV"@ {
            Tint::Blue
        } else if category@ == "Anime"@ {
            Tint::Yellow
        } else {
            Tint::DarkGray
        },
{
    if same_text(category, "Movie") {
        Tint::Magenta
    } else if same_text(category, "TV") {
        Tint::Blue
    } else if same_text(category, "Anime") {
        Tint::Yellow
    } else {
        Tint::DarkGray
    }
}

/// Whether two strings hold the same characters.
fn same_text(a: &str, b: &str) -> (r: bool)
    ensures
        r == (a@ == b@),
{
    let x = chars_of(a);
    let y = chars_of(b);
    if x.len() != y.len() {
        return false;
    }
    let mut i: usize = 0;
    while i < x.len()
        invariant
            0 <= i <= x.len(),
            x.len() == y.len(),
            x@ == a@,
            y@ == b@,
            forall|k: int| 0 <= k < i ==> x@[k] == y@[k],
        decreases x.len() - i,
    {
        if x[i] != y[i] {
            return false;
        }
        i = i + 1;
    }
    assert(x@ =~= y@);
    true
}

} // verus!
