# image_plugin

An image processor that loads a PNG image, hands its RGBA pixels to a plugin
(mirror or blur) loaded from a dynamic library, and saves the result.

- `src/` is the verified library (Verus):
  - `mirror.rs`: mirroring about either axis and rotation by 180 degrees, with the
    laws that each is its own inverse and that the rotation is both mirrors combined;
  - `blur.rs`: the weighted box blur with a diamond-shaped kernel, the closed form of
    its total weight, and the laws that uniform images, single pixels and radius 0
    are left unchanged;
  - `blur_symmetry.rs`: the laws that blurring commutes with both mirrors and with the
    rotation, for one pass and for many;
  - `loader.rs`: plugin file names, buffer-size and settings checks made before a
    plugin is called;
  - `cli_check.rs`: the checks on the command-line paths;
  - `error.rs`: the error type and its messages;
  - `image_data.rs`: decoding image files into RGBA pixels and encoding them back,
    through the `image` crate;
  - `layout.rs`: index arithmetic shared by the above.
- `app/` holds the program around it: argument parsing, file I/O, plugin loading and
  the C entry points of the plugins.
- `tests/` exercises the library on concrete images.
