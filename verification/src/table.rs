//! The table of devices, as it is printed.

use vstd::prelude::*;

use crate::list;
use crate::list::{DeviceView, UsbDevice};
use crate::text;

verus! {

/// `n` times the character `c`.
pub open spec fn repeated(c: char, n: nat) -> Seq<char> {
    Seq::new(n, |i: int| c)
}

/// `s`, filled up on the right to at least `width` characters.
pub open spec fn filled(s: Seq<char>, fill: char, width: nat) -> Seq<char> {
    if s.len() < width {
        s + repeated(fill, (width - s.len()) as nat)
    } else {
        s
    }
}

/// The length of a text in bytes.
pub open spec fn byte_length(s: Seq<char>) -> nat {
    vstd::utf8::encode_utf8(s).len()
}

/// The largest of the lengths of `s`, but at least `least`.
pub open spec fn column_width(s: Seq<Seq<char>>, least: nat) -> nat
    decreases s.len(),
{
    if s.len() == 0 {
        least
    } else {
        let before = column_width(s.drop_last(), least);
        if byte_length(s.last()) > before {
            byte_length(s.last())
        } else {
            before
        }
    }
}

pub open spec fn paths(d: Seq<DeviceView>) -> Seq<Seq<char>> {
    d.map_values(|x: DeviceView| x.path)
}

pub open spec fn sizes(d: Seq<DeviceView>) -> Seq<Seq<char>> {
    d.map_values(|x: DeviceView| x.size_human)
}

pub open spec fn models(d: Seq<DeviceView>) -> Seq<Seq<char>> {
    d.map_values(|x: DeviceView| x.model)
}

/// The widths of the three columns.
pub struct Widths {
    pub path: nat,
    pub size: nat,
    pub model: nat,
}

pub open spec fn widths(d: Seq<DeviceView>) -> Widths {
    Widths {
        path: column_width(paths(d), 6),
        size: column_width(sizes(d), 8),
        model: column_width(models(d), 5),
    }
}

pub open spec fn row(a: Seq<char>, b: Seq<char>, c: Seq<char>, fill: char, w: Widths) -> Seq<char> {
    "  "@ + filled(a, fill, w.path) + "  "@ + filled(b, fill, w.size) + "  "@ + filled(
        c,
        fill,
        w.model,
    ) + "\n"@
}

/// One row for each device.
pub open spec fn device_rows(d: Seq<DeviceView>, w: Widths) -> Seq<char>
    decreases d.len(),
{
    if d.len() == 0 {
        Seq::empty()
    } else {
        device_rows(d.drop_last(), w) + row(
            d.last().path,
            d.last().size_human,
            d.last().model,
            ' ',
            w,
        )
    }
}

pub open spec fn table(d: Seq<DeviceView>, windows: bool) -> Seq<char> {
    if d.len() == 0 {
        if windows {
            "No storage devices found.\n"@
                + "If a drive is plugged in, re-run with --verbose to see why each device was skipped.\n"@
        } else {
            "No storage devices found.\n"@
        }
    } else {
        let w = widths(d);
        "\n"@ + row("DEVICE"@, "SIZE"@, "MODEL"@, ' ', w) + row(
            Seq::empty(),
            Seq::empty(),
            Seq::empty(),
            '-',
            w,
        ) + device_rows(d, w) + "\n"@
    }
}

/// Appends `s`, filled up on the right to at least `width` characters.
pub fn push_filled(out: &mut String, s: &str, fill: char, width: usize)
    ensures
        final(out)@ == old(out)@ + filled(s@, fill, width as nat),
{
    let ghost before = out@;
    out.append(s);
    let v = text::chars_of(s);
    let n: usize = v.len();
    if n < width {
        for i in 0..width - n
            invariant
                out@ == before + s@ + repeated(fill, i as nat),
        {
            out.push(fill);
            assert(out@ =~= before + s@ + repeated(fill, (i + 1) as nat));
        }
        assert(out@ =~= before + filled(s@, fill, width as nat));
    }
}

fn push_row(out: &mut String, a: &str, b: &str, c: &str, fill: char, w: (usize, usize, usize))
    ensures
        final(out)@ == old(out)@ + row(
            a@,
            b@,
            c@,
            fill,
            Widths { path: w.0 as nat, size: w.1 as nat, model: w.2 as nat },
        ),
{
    let ghost before = out@;
    out.append("  ");
    push_filled(out, a, fill, w.0);
    out.append("  ");
    push_filled(out, b, fill, w.1);
    out.append("  ");
    push_filled(out, c, fill, w.2);
    out.append("\n");
    assert(out@ =~= before + row(
        a@,
        b@,
        c@,
        fill,
        Widths { path: w.0 as nat, size: w.1 as nat, model: w.2 as nat },
    ));
}

fn wider(width: usize, s: &str) -> (r: usize)
    ensures
        r == if byte_length(s@) > width {
            byte_length(s@)
        } else {
            width as nat
        },
{
    let n: usize = s.as_bytes().len();
    if n > width {
        n
    } else {
        width
    }
}

fn measure(devices: &[UsbDevice]) -> (w: (usize, usize, usize))
    ensures
        widths(list::device_views(devices@)) == (Widths {
            path: w.0 as nat,
            size: w.1 as nat,
            model: w.2 as nat,
        }),
{
    let ghost all = list::device_views(devices@);
    let mut w: (usize, usize, usize) = (6, 8, 5);
    for i in 0..devices.len()
        invariant
            all == list::device_views(devices@),
            w.0 == column_width(paths(all).take(i as int), 6),
            w.1 == column_width(sizes(all).take(i as int), 8),
            w.2 == column_width(models(all).take(i as int), 5),
    {
        proof {
            assert(all[i as int] == devices@[i as int]@);
            assert(paths(all).take(i + 1).drop_last() =~= paths(all).take(i as int));
            assert(sizes(all).take(i + 1).drop_last() =~= sizes(all).take(i as int));
            assert(models(all).take(i + 1).drop_last() =~= models(all).take(i as int));
        }
        let d = &devices[i];
        w = (
            wider(w.0, d.path.as_str()),
            wider(w.1, d.size_human.as_str()),
            wider(w.2, d.model.as_str()),
        );
    }
    proof {
        assert(paths(all).take(all.len() as int) =~= paths(all));
        assert(sizes(all).take(all.len() as int) =~= sizes(all));
        assert(models(all).take(all.len() as int) =~= models(all));
    }
    w
}

/// The table of the given devices, or a line that says that there are none.
pub fn device_table(devices: &[UsbDevice], windows: bool) -> (r: String)
    ensures
        r@ == table(list::device_views(devices@), windows),
{
    let ghost all = list::device_views(devices@);
    let mut out = String::new();
    if devices.len() == 0 {
        out.append("No storage devices found.\n");
        if windows {
            out.append(
                "If a drive is plugged in, re-run with --verbose to see why each device was skipped.\n",
            );
        }
        assert(out@ =~= table(all, windows));
        return out;
    }
    let w = measure(devices);
    let ghost v = widths(all);
    out.append("\n");
    push_row(&mut out, "DEVICE", "SIZE", "MODEL", ' ', w);
    let empty = String::new();
    push_row(&mut out, empty.as_str(), empty.as_str(), empty.as_str(), '-', w);
    let ghost head = out@;
    assert(all.take(0) =~= Seq::<DeviceView>::empty());
    assert(out@ =~= head + device_rows(all.take(0), v));
    for i in 0..devices.len()
        invariant
            all == list::device_views(devices@),
            v == (Widths { path: w.0 as nat, size: w.1 as nat, model: w.2 as nat }),
            out@ == head + device_rows(all.take(i as int), v),
    {
        let d = &devices[i];
        proof {
            assert(all[i as int] == d@);
            assert(all.take(i + 1).drop_last() =~= all.take(i as int));
        }
        push_row(&mut out, d.path.as_str(), d.size_human.as_str(), d.model.as_str(), ' ', w);
        assert(out@ =~= head + device_rows(all.take(i + 1), v));
    }
    assert(all.take(all.len() as int) =~= all);
    out.append("\n");
    assert(out@ =~= table(all, windows));
    out
}

} // verus!
