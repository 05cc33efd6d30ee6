use vstd::prelude::*;
use crate::error::ImgError;
use vstd::string::StringSliceAdditionalSpecFns;

verus! {

/// File name of the dynamic library of plugin `name` on operating system `os`.
pub open spec fn library_file_name(os: Seq<char>, name: Seq<char>) -> Seq<char> {
    if os == "windows"@ {
        name + ".dll"@
    } else if os == "macos"@ {
        "lib"@ + name + ".dylib"@
    } else {
        "lib"@ + name + ".so"@
    }
}

/// File name of the dynamic library of plugin `name` on the operating system `os` (as
/// named by `std::env::consts::OS`): `name.dll` on Windows, `libname.dylib` on macOS and
/// `libname.so` elsewhere.
pub fn plugin_filename(os: &str, name: &str) -> (file: String)
    ensures
        file@ == library_file_name(os@, name@),
{
    let os_name = String::from_str(os);
    if os_name == String::from_str("windows") {
        let mut file = String::from_str(name);
        file.append(".dll");
        file
    } else if os_name == String::from_str("macos") {
        let mut file = String::from_str("lib");
        file.append(name);
        file.append(".dylib");
        file
    } else {
        let mut file = String::from_str("lib");
        file.append(name);
        file.append(".so");
        file
    }
}

/// Checks that a pixel buffer of `actual` bytes fits a `width` x `height` RGBA image and
/// gives back the expected size.
pub fn check_buffer_size(width: u32, height: u32, actual: usize) -> (res: Result<usize, ImgError>)
    requires
        width * height * 4 <= u32::MAX,
    ensures
        res matches Ok(n) ==> n == width * height * 4 && actual == n,
        res is Err ==> actual != width * height * 4,
        res matches Err(e) ==> e == (ImgError::BufferSizeMismatch { expected: (width * height * 4) as usize, actual }),
{
    let expected = (width * height * 4) as usize;
    if actual != expected {
        return Err(ImgError::BufferSizeMismatch { expected, actual });
    }
    Ok(expected)
}

/// Whether the bytes of `text` include a zero byte.
pub open spec fn has_zero_byte(text: &str) -> bool {
    exists|i: int| 0 <= i < text.spec_bytes().len() && text.spec_bytes()[i] == 0
}

/// Checks that the plugin settings `params` can be handed over as a C string, that is,
/// that none of their bytes is zero.
pub fn check_params_text(params: &str) -> (res: Result<(), ImgError>)
    ensures
        res is Ok <==> !has_zero_byte(params),
        res matches Err(e) ==> e == ImgError::ParamContainsNul,
{
    let bytes = params.as_bytes();
    let mut i: usize = 0;
    while i < bytes.len()
        invariant
            bytes@ == params.spec_bytes(),
            i <= bytes@.len(),
            forall|j: int| 0 <= j < i ==> bytes@[j] != 0,
        decreases bytes@.len() - i,
    {
        if bytes[i] == 0 {
            return Err(ImgError::ParamContainsNul);
        }
        i += 1;
    }
    Ok(())
}

} // verus!
