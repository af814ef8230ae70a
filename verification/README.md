# ceph-rbd

A binding to librbd, the Ceph block-device library, split in two.

- `src/` is the verified core. It holds what the calls into librbd
  are built from and what their answers mean:
  - `cstr`: string arguments as C strings, C buffers read back as text;
  - `fields`: buffers of NUL-separated fields decoded as UTF-8;
  - `options`: the image option lists of create, clone and copy, and the
    run that sets them, makes the request and destroys the list;
  - `rbd`: pool-level requests (image creation and cloning, listing);
  - `image`: image-level replies (stat, ids, lock owners, metadata, reads);
  - `error`, `errno`: return codes and the errno values librbd answers with;
  - `laws`: properties proved across these functions.
- `app/` makes the calls into librbd and librados (through the `ceph`
  crate) and hands their answers to the core.
