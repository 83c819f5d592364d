use vstd::prelude::*;

verus! {

/// The decimal digits of `n` in ASCII, most significant first, without
/// leading zeros.
pub open spec fn decimal(n: nat) -> Seq<u8>
    decreases n,
{
    if n < 10 {
        seq![(48 + n) as u8]
    } else {
        decimal(n / 10).push((48 + n % 10) as u8)
    }
}

/// `P3`, then the width and height, then the largest channel value, each
/// on its own line.
pub open spec fn ppm_header(width: nat, height: nat) -> Seq<u8> {
    seq![80u8, 51u8, 10u8] + decimal(width) + seq![32u8] + decimal(height) + seq![
        10u8,
        50u8,
        53u8,
        53u8,
        10u8,
    ]
}

/// One line `R G B` for a pixel.
pub open spec fn ppm_pixel(r: u8, g: u8, b: u8) -> Seq<u8> {
    decimal(r as nat) + seq![32u8] + decimal(g as nat) + seq![32u8] + decimal(b as nat) + seq![
        10u8,
    ]
}

/// One line per 4-byte RGBA pixel of `rgba`, in order; the fourth byte of
/// each pixel is not written.
pub open spec fn ppm_body(rgba: Seq<u8>) -> Seq<u8>
    decreases rgba.len(),
{
    if rgba.len() < 4 {
        Seq::empty()
    } else {
        let n = rgba.len() - 4;
        ppm_body(rgba.subrange(0, n)) + ppm_pixel(rgba[n], rgba[n + 1], rgba[n + 2])
    }
}

/// The plain-text image of an RGBA framebuffer.
pub open spec fn ppm_text(rgba: Seq<u8>, width: nat, height: nat) -> Seq<u8> {
    ppm_header(width, height) + ppm_body(rgba)
}

/// Appends the decimal digits of `n`.
fn push_decimal(out: &mut Vec<u8>, n: usize)
    ensures
        final(out)@ == old(out)@ + decimal(n as nat),
    decreases n,
{
    if n >= 10 {
        push_decimal(out, n / 10);
    }
    let digit = (n % 10) as u8;
    out.push(48u8 + digit);
    assert(out@ =~= old(out)@ + decimal(n as nat));
}

/// The plain-text (`P3`) image of a `width` by `height` RGBA framebuffer:
/// a header, then one `R G B` line per pixel in the buffer's order.
pub fn encode_ppm(rgba: &[u8], width: usize, height: usize) -> (r: Vec<u8>)
    requires
        rgba.len() % 4 == 0,
    ensures
        r@ == ppm_text(rgba@, width as nat, height as nat),
{
    let mut out: Vec<u8> = Vec::new();
    out.push(80u8);
    out.push(51u8);
    out.push(10u8);
    push_decimal(&mut out, width);
    out.push(32u8);
    push_decimal(&mut out, height);
    out.push(10u8);
    out.push(50u8);
    out.push(53u8);
    out.push(53u8);
    out.push(10u8);
    proof {
        assert(out@ =~= ppm_header(width as nat, height as nat));
        assert(rgba@.subrange(0, 0) =~= Seq::<u8>::empty());
    }
    let mut i: usize = 0;
    while i < rgba.len()
        invariant
            rgba.len() % 4 == 0,
            i % 4 == 0,
            i <= rgba.len(),
            out@ == ppm_header(width as nat, height as nat) + ppm_body(rgba@.subrange(0, i as int)),
        decreases rgba.len() - i,
    {
        let ghost prev = out@;
        push_decimal(&mut out, rgba[i] as usize);
        out.push(32u8);
        push_decimal(&mut out, rgba[i + 1] as usize);
        out.push(32u8);
        push_decimal(&mut out, rgba[i + 2] as usize);
        out.push(10u8);
        proof {
            let s = rgba@.subrange(0, i + 4);
            assert(s.subrange(0, i as int) =~= rgba@.subrange(0, i as int));
            assert(ppm_body(s) == ppm_body(rgba@.subrange(0, i as int)) + ppm_pixel(
                rgba@[i as int],
                rgba@[i + 1],
                rgba@[i + 2],
            ));
            assert(out@ =~= prev + ppm_pixel(rgba@[i as int], rgba@[i + 1], rgba@[i + 2]));
        }
        i += 4;
    }
    assert(rgba@.subrange(0, rgba.len() as int) =~= rgba@);
    out
}

} // verus!
