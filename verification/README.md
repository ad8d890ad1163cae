# luty

Luty applies `.cube` 3D colour lookup tables to images. This crate holds
its verified core:

- `cube`: reading a `.cube` text into a LUT grid whose entries are IEEE-754
  binary32 bit patterns (the decimal-to-binary32 conversion of each word is
  the caller's: `number_words` lists the words, `CubeLut::parse_str` takes
  their conversions);
- `catalog`: what the first lines of a `.cube` file say, one descriptor per
  file, and the catalog order (stable, by lowercase name);
- `cache`: parsed LUTs by path, valid while the file's stamp is unchanged;
- `output`: export file names that neither exist nor repeat;
- `imaging`: EXIF orientation, preview names and sizes, export formats;
- `paths`, `text`, `order`, `bits`, `settings`: the path, text, ordering
  and bit-pattern reasoning these rest on.

`app/` is the desktop shell (Tauri commands, file and image I/O, and the
floating-point pixel work: trilinear sampling, tone mapping, blending).
