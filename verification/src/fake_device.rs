//! A device backed by a memory buffer.
use rand::Rng;
use vstd::arithmetic::div_mod::lemma_fundamental_div_mod;
use vstd::prelude::*;

verus! {

/// What a callback is told.
pub enum Op {
    Read,
    Write,
    Flush,
}

/// Why a device does not do what it is asked to.
#[derive(Debug)]
pub enum DeviceError<E> {
    /// The device is closed.
    Closed,
    /// The device is read-only.
    ReadOnly,
    /// The callback failed.
    Op(E),
}

/// The byte that trimmed ranges are filled with.
pub const TRIMMED: u8 = 0xab;

/// The byte that discarded blocks are filled with.
pub const DISCARDED: u8 = 0xaf;

/// `data` with `bytes` at `offset`.
pub open spec fn overwritten(data: Seq<u8>, offset: int, bytes: Seq<u8>) -> Seq<u8> {
    Seq::new(
        data.len(),
        |i: int|
            if offset <= i < offset + bytes.len() {
                bytes[i - offset]
            } else {
                data[i]
            },
    )
}

/// `data` with the bytes from `start` to `end` all the same.
pub open spec fn filled(data: Seq<u8>, start: int, end: int, byte: u8) -> Seq<u8> {
    Seq::new(
        data.len(),
        |i: int|
            if start <= i < end {
                byte
            } else {
                data[i]
            },
    )
}

/// `data` with those of the first `count` of `blocks` discarded for which `choices` says so.
pub open spec fn discarded(
    data: Seq<u8>,
    blocks: Seq<usize>,
    choices: Seq<bool>,
    block_size: int,
    count: nat,
) -> Seq<u8>
    decreases count,
{
    if count == 0 {
        data
    } else {
        let before = discarded(data, blocks, choices, block_size, (count - 1) as nat);
        if choices[count - 1] {
            let block = blocks[count - 1] as int;
            filled(before, block * block_size, block * block_size + block_size, DISCARDED)
        } else {
            before
        }
    }
}

/// The content of a device.
#[verifier::ext_equal]
pub struct DeviceView {
    pub block_size: int,
    pub data: Seq<u8>,
    /// The blocks that were written since the last flush.
    pub blocks_written: Seq<usize>,
    pub closed: bool,
    pub read_only: bool,
    pub poisoned: bool,
}

/// A Device backed by a memory buffer.
pub struct FakeDevice {
    block_size: u32,
    data: Vec<u8>,
    blocks_written: Vec<usize>,
    closed: bool,
    read_only: bool,
    poisoned: bool,
}

impl View for FakeDevice {
    type V = DeviceView;

    closed spec fn view(&self) -> DeviceView {
        DeviceView {
            block_size: self.block_size as int,
            data: self.data@,
            blocks_written: self.blocks_written@,
            closed: self.closed,
            read_only: self.read_only,
            poisoned: self.poisoned,
        }
    }
}

impl DeviceView {
    /// Blocks have a size, and those that were written lie on the device.
    pub open spec fn wf(self) -> bool {
        &&& 0 < self.block_size <= u32::MAX
        &&& self.data.len() <= usize::MAX
        &&& forall|i: int|
            0 <= i < self.blocks_written.len() ==> #[trigger] self.blocks_written[i]
                * self.block_size + self.block_size <= self.data.len()
    }

    /// A range of `size` bytes at `offset` can be read or written.
    pub open spec fn in_range(self, offset: int, size: int) -> bool {
        offset % self.block_size == 0 && offset + size <= self.data.len()
    }

    /// The device once `bytes` have been written at `offset`.
    pub open spec fn writing(self, offset: int, bytes: Seq<u8>) -> DeviceView {
        DeviceView {
            data: overwritten(self.data, offset, bytes),
            blocks_written: self.blocks_written + Seq::new(
                (bytes.len() as int / self.block_size) as nat,
                |i: int| (offset / self.block_size + i) as usize,
            ),
            ..self
        }
    }

    /// The device once blocks that were written have been discarded according to `choices`.
    pub open spec fn discarding(self, choices: Seq<bool>) -> DeviceView {
        DeviceView {
            data: discarded(
                self.data,
                self.blocks_written,
                choices,
                self.block_size,
                self.blocks_written.len(),
            ),
            blocks_written: Seq::empty(),
            ..self
        }
    }
}

/// `rand::Rng::gen` on `rand::thread_rng`, for a `bool`: either value can come out.
#[verifier::external_body]
fn random_bool() -> bool {
    rand::thread_rng().gen()
}

fn fill(data: &mut Vec<u8>, start: usize, end: usize, byte: u8)
    requires
        start <= end <= old(data)@.len(),
    ensures
        final(data)@ == filled(old(data)@, start as int, end as int, byte),
{
    let mut i: usize = start;
    assert(data@ =~= filled(old(data)@, start as int, start as int, byte));
    while i < end
        invariant
            start <= i <= end <= old(data)@.len(),
            data@ == filled(old(data)@, start as int, i as int, byte),
        decreases end - i,
    {
        data[i] = byte;
        assert(data@ =~= filled(old(data)@, start as int, i + 1, byte));
        i += 1;
    }
}

impl FakeDevice {
    pub open spec fn wf(self) -> bool {
        self@.wf()
    }

    pub fn new(block_count: u64, block_size: u32) -> (device: Self)
        requires
            block_size > 0,
            block_count * block_size <= usize::MAX,
        ensures
            device.wf(),
            device@.data == Seq::new((block_count * block_size) as nat, |i: int| 0u8),
            device@.block_size == block_size,
            device@.blocks_written == Seq::<usize>::empty(),
            !device@.closed,
            !device@.read_only,
            !device@.poisoned,
    {
        assert(block_count <= block_count * block_size) by (nonlinear_arith)
            requires
                block_size > 0,
        ;
        let size: usize = block_count as usize * block_size as usize;
        let device = FakeDevice::with_data(vec![0u8; size], block_size);
        assert(device@.data =~= Seq::new((block_count * block_size) as nat, |i: int| 0u8));
        device
    }

    /// Creates a fake block device from what was read of an image.  The size of the device is determined
    /// by how much data was read.
    pub fn from_image(data: Vec<u8>, block_size: u32) -> (device: Self)
        requires
            block_size > 0,
        ensures
            device.wf(),
            device@.data == data@,
            device@.block_size == block_size,
            device@.blocks_written == Seq::<usize>::empty(),
            !device@.closed,
            !device@.read_only,
            !device@.poisoned,
    {
        FakeDevice::with_data(data, block_size)
    }

    fn with_data(data: Vec<u8>, block_size: u32) -> (device: Self)
        requires
            block_size > 0,
        ensures
            device.wf(),
            device@ == (DeviceView {
                block_size: block_size as int,
                data: data@,
                blocks_written: Seq::empty(),
                closed: false,
                read_only: false,
                poisoned: false,
            }),
    {
        let len: usize = data.len();
        let device = FakeDevice {
            block_size,
            data,
            blocks_written: Vec::new(),
            closed: false,
            read_only: false,
            poisoned: false,
        };
        assert(device@.data.len() == len);
        device
    }

    pub fn block_size(&self) -> (block_size: u32)
        ensures
            block_size == self@.block_size,
    {
        self.block_size
    }

    pub fn block_count(&self) -> (block_count: u64)
        requires
            self.wf(),
        ensures
            block_count == self@.data.len() as int / self@.block_size,
    {
        self.data.len() as u64 / self.block_size as u64
    }

    /// Reads `size` bytes at `offset`.  The callback runs first and its error is forwarded.
    pub fn read<E, F: Fn(Op) -> Result<(), E>>(
        &self,
        offset: u64,
        size: usize,
        callback: F,
    ) -> (bytes: Result<Vec<u8>, DeviceError<E>>)
        requires
            self.wf(),
            callback.requires((Op::Read,)),
            !self@.closed && callback.ensures((Op::Read,), Ok(())) ==> self@.in_range(
                offset as int,
                size as int,
            ),
        ensures
            match bytes {
                Ok(bytes) => {
                    &&& !self@.closed
                    &&& callback.ensures((Op::Read,), Ok(()))
                    &&& bytes@ == self@.data.subrange(offset as int, offset + size)
                },
                Err(DeviceError::Closed) => self@.closed,
                Err(DeviceError::ReadOnly) => false,
                Err(DeviceError::Op(error)) => !self@.closed && callback.ensures(
                    (Op::Read,),
                    Err(error),
                ),
            },
    {
        if self.closed {
            return Err(DeviceError::Closed);
        }
        match callback(Op::Read) {
            Ok(done) => {
                assert(done == ());
            },
            Err(error) => {
                return Err(DeviceError::Op(error));
            },
        }
        let start: usize = offset as usize;
        let mut bytes: Vec<u8> = Vec::new();
        let mut i: usize = 0;
        while i < size
            invariant
                i <= size,
                start + size <= self.data@.len() <= usize::MAX,
                bytes@ == self.data@.subrange(start as int, start + i),
            decreases size - i,
        {
            bytes.push(self.data[start + i]);
            assert(bytes@ =~= self.data@.subrange(start as int, start + i + 1));
            i += 1;
        }
        Ok(bytes)
    }

    /// Writes `bytes` at `offset` and notes the blocks that were written.  The callback runs first and its
    /// error is forwarded.
    pub fn write<E, F: Fn(Op) -> Result<(), E>>(
        &mut self,
        offset: u64,
        bytes: &Vec<u8>,
        callback: F,
    ) -> (written: Result<(), DeviceError<E>>)
        requires
            old(self).wf(),
            callback.requires((Op::Write,)),
            !old(self)@.closed && !old(self)@.read_only && callback.ensures((Op::Write,), Ok(()))
                ==> old(self)@.in_range(offset as int, bytes@.len() as int),
        ensures
            final(self).wf(),
            match written {
                Ok(_) => {
                    &&& !old(self)@.closed
                    &&& !old(self)@.read_only
                    &&& callback.ensures((Op::Write,), Ok(()))
                    &&& final(self)@ == old(self)@.writing(offset as int, bytes@)
                },
                Err(error) => {
                    &&& final(self)@ == old(self)@
                    &&& match error {
                        DeviceError::Closed => old(self)@.closed,
                        DeviceError::ReadOnly => !old(self)@.closed && old(self)@.read_only,
                        DeviceError::Op(error) => !old(self)@.closed && !old(self)@.read_only
                            && callback.ensures((Op::Write,), Err(error)),
                    }
                },
            },
    {
        if self.closed {
            return Err(DeviceError::Closed);
        }
        if self.read_only {
            return Err(DeviceError::ReadOnly);
        }
        match callback(Op::Write) {
            Ok(done) => {
                assert(done == ());
            },
            Err(error) => {
                return Err(DeviceError::Op(error));
            },
        }
        let start: usize = offset as usize;
        let size: usize = bytes.len();
        let ghost data = self.data@;
        let mut i: usize = 0;
        assert(self.data@ =~= overwritten(data, start as int, bytes@.take(0)));
        while i < size
            invariant
                i <= size == bytes@.len(),
                data == old(self).data@,
                start + size <= data.len() <= usize::MAX,
                self.data@ == overwritten(data, start as int, bytes@.take(i as int)),
                self.block_size == old(self).block_size,
                self.blocks_written == old(self).blocks_written,
                self.closed == old(self).closed,
                self.read_only == old(self).read_only,
                self.poisoned == old(self).poisoned,
            decreases size - i,
        {
            self.data[start + i] = bytes[i];
            assert(self.data@ =~= overwritten(data, start as int, bytes@.take(i + 1)));
            i += 1;
        }
        assert(bytes@.take(size as int) =~= bytes@);
        let block_size: usize = self.block_size as usize;
        let first_block: usize = start / block_size;
        let blocks: usize = size / block_size;
        let ghost new_blocks = Seq::new(
            blocks as nat,
            |k: int| (start as int / block_size as int + k) as usize,
        );
        proof {
            lemma_fundamental_div_mod(start as int, block_size as int);
            lemma_fundamental_div_mod(size as int, block_size as int);
            assert(first_block <= start) by (nonlinear_arith)
                requires
                    first_block == start / block_size,
                    block_size > 0,
            ;
            assert(blocks <= size) by (nonlinear_arith)
                requires
                    blocks == size / block_size,
                    block_size > 0,
            ;
        }
        let mut b: usize = 0;
        while b < blocks
            invariant
                b <= blocks,
                first_block + blocks <= usize::MAX,
                first_block == start as int / block_size as int,
                new_blocks == Seq::new(
                    blocks as nat,
                    |k: int| (start as int / block_size as int + k) as usize,
                ),
                self.data@ == overwritten(data, start as int, bytes@),
                self.block_size == old(self).block_size,
                self.blocks_written@ == old(self).blocks_written@ + new_blocks.take(b as int),
                self.closed == old(self).closed,
                self.read_only == old(self).read_only,
                self.poisoned == old(self).poisoned,
            decreases blocks - b,
        {
            self.blocks_written.push(first_block + b);
            assert(self.blocks_written@ =~= old(self).blocks_written@ + new_blocks.take(b + 1));
            b += 1;
        }
        proof {
            assert(new_blocks.take(blocks as int) =~= new_blocks);
            assert(self@ =~= old(self)@.writing(offset as int, bytes@));
            let bs = block_size as int;
            assert forall|k: int| 0 <= k < self@.blocks_written.len() implies
                #[trigger] self@.blocks_written[k] * self@.block_size + self@.block_size
                <= self@.data.len() by {
                let n = old(self)@.blocks_written.len() as int;
                if k >= n {
                    let j = k - n;
                    let block = first_block + j;
                    assert(self@.blocks_written[k] == block);
                    assert(block * bs + bs <= start + size) by (nonlinear_arith)
                        requires
                            start == bs * first_block,
                            size >= bs * blocks,
                            block == first_block + j,
                            0 <= j < blocks,
                            bs > 0,
                    ;
                } else {
                    assert(self@.blocks_written[k] == old(self)@.blocks_written[k]);
                }
            }
        }
        Ok(())
    }

    /// Blasts over the range to simulate it being used for something else.
    pub fn trim(&mut self, start: u64, end: u64) -> (trimmed: Result<(), DeviceError<()>>)
        requires
            old(self).wf(),
            !old(self)@.closed && !old(self)@.read_only ==> {
                &&& start as int % old(self)@.block_size == 0
                &&& end as int % old(self)@.block_size == 0
                &&& start <= end <= old(self)@.data.len()
            },
        ensures
            final(self).wf(),
            match trimmed {
                Ok(_) => {
                    &&& !old(self)@.closed
                    &&& !old(self)@.read_only
                    &&& final(self)@ == (DeviceView {
                        data: filled(old(self)@.data, start as int, end as int, TRIMMED),
                        ..old(self)@
                    })
                },
                Err(error) => {
                    &&& final(self)@ == old(self)@
                    &&& match error {
                        DeviceError::Closed => old(self)@.closed,
                        DeviceError::ReadOnly => !old(self)@.closed && old(self)@.read_only,
                        DeviceError::Op(_) => false,
                    }
                },
            },
    {
        if self.closed {
            return Err(DeviceError::Closed);
        }
        if self.read_only {
            return Err(DeviceError::ReadOnly);
        }
        fill(&mut self.data, start as usize, end as usize, TRIMMED);
        Ok(())
    }

    pub fn close(&mut self)
        ensures
            final(self)@ == (DeviceView { closed: true, ..old(self)@ }),
    {
        self.closed = true;
    }

    /// Flushes the device: blocks that were written can be relied on from now on.  The callback runs first
    /// and its error is forwarded; the device is then as it was.
    pub fn flush<E, F: Fn(Op) -> Result<(), E>>(&mut self, callback: F) -> (flushed: Result<(), E>)
        requires
            old(self).wf(),
            callback.requires((Op::Flush,)),
        ensures
            final(self).wf(),
            callback.ensures((Op::Flush,), flushed),
            flushed is Ok ==> final(self)@ == (DeviceView {
                blocks_written: Seq::empty(),
                ..old(self)@
            }),
            flushed is Err ==> final(self)@ == old(self)@,
    {
        match callback(Op::Flush) {
            Ok(done) => {
                self.blocks_written = Vec::new();
                Ok(done)
            },
            Err(error) => Err(error),
        }
    }

    pub fn reopen(&mut self, read_only: bool)
        ensures
            final(self)@ == (DeviceView { closed: false, read_only, ..old(self)@ }),
    {
        self.closed = false;
        self.read_only = read_only;
    }

    pub fn is_read_only(&self) -> (read_only: bool)
        ensures
            read_only == self@.read_only,
    {
        self.read_only
    }

    pub fn supports_trim(&self) -> (supports: bool)
        ensures
            supports,
    {
        true
    }

    /// Copies the device.  The copy is open, writable and not poisoned.
    pub fn snapshot(&self) -> (copy: FakeDevice)
        requires
            self.wf(),
        ensures
            copy.wf(),
            copy@ == (DeviceView { closed: false, read_only: false, poisoned: false, ..self@ }),
    {
        let data = self.data.clone();
        let blocks_written = self.blocks_written.clone();
        assert(data@ =~= self.data@);
        assert(blocks_written@ =~= self.blocks_written@);
        let copy = FakeDevice {
            block_size: self.block_size,
            data,
            blocks_written,
            closed: false,
            read_only: false,
            poisoned: false,
        };
        assert(copy@.blocks_written == self@.blocks_written);
        copy
    }

    /// Discards blocks that were written since the last flush: those for which `choices` says so.
    /// Returns them.
    pub fn discard_since_last_flush(&mut self, choices: &Vec<bool>) -> (blocks: Vec<usize>)
        requires
            old(self).wf(),
            choices@.len() == old(self)@.blocks_written.len(),
        ensures
            final(self).wf(),
            final(self)@ == old(self)@.discarding(choices@),
            blocks@ == chosen(old(self)@.blocks_written, choices@, choices@.len()),
    {
        let bs: usize = self.block_size as usize;
        let ghost data = self.data@;
        let mut blocks: Vec<usize> = Vec::new();
        let mut i: usize = 0;
        while i < self.blocks_written.len()
            invariant
                i <= choices@.len() == self.blocks_written@.len(),
                self.blocks_written == old(self).blocks_written,
                self.block_size == old(self).block_size,
                self.closed == old(self).closed,
                self.read_only == old(self).read_only,
                self.poisoned == old(self).poisoned,
                old(self).wf(),
                bs == self.block_size,
                data == old(self).data@,
                self.data@.len() == data.len(),
                self.data@ == discarded(
                    data,
                    self.blocks_written@,
                    choices@,
                    bs as int,
                    i as nat,
                ),
                blocks@ == chosen(self.blocks_written@, choices@, i as nat),
            decreases choices@.len() - i,
        {
            if choices[i] {
                let block: usize = self.blocks_written[i];
                assert(old(self)@.blocks_written[i as int] * old(self)@.block_size
                    + old(self)@.block_size <= old(self)@.data.len());
                assert(0 <= block * bs) by (nonlinear_arith);
                let start: usize = block * bs;
                fill(&mut self.data, start, start + bs, DISCARDED);
                blocks.push(block);
            }
            i += 1;
        }
        self.blocks_written = Vec::new();
        blocks
    }

    /// Discards blocks that were written since the last flush, at random.
    pub fn discard_random_since_last_flush(&mut self) -> (blocks: Vec<usize>)
        requires
            old(self).wf(),
        ensures
            final(self).wf(),
            exists|choices: Seq<bool>|
                {
                    &&& choices.len() == old(self)@.blocks_written.len()
                    &&& final(self)@ == #[trigger] old(self)@.discarding(choices)
                    &&& blocks@ == chosen(old(self)@.blocks_written, choices, choices.len())
                },
    {
        let mut choices: Vec<bool> = Vec::new();
        while choices.len() < self.blocks_written.len()
            invariant
                choices@.len() <= self.blocks_written@.len(),
                *self == *old(self),
            decreases self.blocks_written@.len() - choices@.len(),
        {
            choices.push(random_bool());
        }
        self.discard_since_last_flush(&choices)
    }

    /// Sets the poisoned state for the device. A poisoned device will panic the thread that drops it.
    pub fn poison(&mut self)
        ensures
            final(self)@ == (DeviceView { poisoned: true, ..old(self)@ }),
    {
        self.poisoned = true;
    }

    /// Returns whether the device is poisoned.
    pub fn is_poisoned(&self) -> (poisoned: bool)
        ensures
            poisoned == self@.poisoned,
    {
        self.poisoned
    }
}

/// Those of the first `count` of `blocks` for which `choices` says so.
pub open spec fn chosen(blocks: Seq<usize>, choices: Seq<bool>, count: nat) -> Seq<usize>
    decreases count,
{
    if count == 0 {
        Seq::empty()
    } else {
        let before = chosen(blocks, choices, (count - 1) as nat);
        if choices[count - 1] {
            before.push(blocks[count - 1])
        } else {
            before
        }
    }
}

/// A read of what was written gives back what was written, and what lies elsewhere is as it was.
pub proof fn lemma_read_gives_back_write(device: DeviceView, offset: int, bytes: Seq<u8>, i: int)
    requires
        device.in_range(offset, bytes.len() as int),
        0 <= offset,
        0 <= i < device.data.len(),
    ensures
        device.writing(offset, bytes).data.subrange(offset, offset + bytes.len()) == bytes,
        i < offset || offset + bytes.len() <= i ==> device.writing(offset, bytes).data[i]
            == device.data[i],
{
    assert(device.writing(offset, bytes).data.subrange(offset, offset + bytes.len()) =~= bytes);
}

/// Discarding touches nothing but blocks that were written since the last flush: every other byte is as it
/// was.
pub proof fn lemma_discard_spares_what_was_flushed(device: DeviceView, choices: Seq<bool>, i: int)
    requires
        0 <= i < device.data.len(),
        forall|k: int|
            0 <= k < device.blocks_written.len() ==> !(#[trigger] device.blocks_written[k]
                * device.block_size <= i < device.blocks_written[k] * device.block_size
                + device.block_size),
    ensures
        device.discarding(choices).data[i] == device.data[i],
{
    lemma_discard_spares(device, choices, i, device.blocks_written.len());
}

proof fn lemma_discard_spares(device: DeviceView, choices: Seq<bool>, i: int, count: nat)
    requires
        0 <= i < device.data.len(),
        count <= device.blocks_written.len(),
        forall|k: int|
            0 <= k < device.blocks_written.len() ==> !(#[trigger] device.blocks_written[k]
                * device.block_size <= i < device.blocks_written[k] * device.block_size
                + device.block_size),
    ensures
        discarded(device.data, device.blocks_written, choices, device.block_size, count)[i]
            == device.data[i],
        discarded(device.data, device.blocks_written, choices, device.block_size, count).len()
            == device.data.len(),
    decreases count,
{
    if count > 0 {
        lemma_discard_spares(device, choices, i, (count - 1) as nat);
        let block = device.blocks_written[count - 1];
        assert(!(block * device.block_size <= i < block * device.block_size + device.block_size));
    }
}

/// Writing notes just the blocks that were written, in order, after those that were noted before, and changes nothing
/// else about the device.
pub proof fn lemma_written_blocks_are_noted(device: DeviceView, offset: int, bytes: Seq<u8>, k: int)
    requires
        device.block_size > 0,
        0 <= offset,
        offset + bytes.len() <= usize::MAX,
        offset % device.block_size == 0,
    ensures
        ({
            let after = device.writing(offset, bytes);
            let count = bytes.len() as int / device.block_size;
            &&& after.blocks_written.len() == device.blocks_written.len() + count
            &&& 0 <= k < device.blocks_written.len() ==> after.blocks_written[k] == device.blocks_written[k]
            &&& 0 <= k < count ==> after.blocks_written[device.blocks_written.len() + k] == offset
                / device.block_size + k
            &&& after.data.len() == device.data.len()
            &&& after.block_size == device.block_size
            &&& after.closed == device.closed
            &&& after.read_only == device.read_only
            &&& after.poisoned == device.poisoned
        }),
{
    let b = device.block_size;
    let count = bytes.len() as int / b;
    assert(count >= 0) by (nonlinear_arith)
        requires
            count == bytes.len() as int / b,
            b > 0,
    ;
    if 0 <= k < count {
        lemma_fundamental_div_mod(offset, b);
        lemma_fundamental_div_mod(bytes.len() as int, b);
        assert(0 <= offset / b + k <= offset + bytes.len()) by (nonlinear_arith)
            requires
                b > 0,
                0 <= offset,
                0 <= k < bytes.len() as int / b,
        ;
    }
}

/// Filling a range gives every byte of it the value, and leaves all others.
pub proof fn lemma_filling_fills_the_range(data: Seq<u8>, start: int, end: int, byte: u8, i: int)
    requires
        0 <= i < data.len(),
    ensures
        filled(data, start, end, byte).len() == data.len(),
        start <= i < end ==> filled(data, start, end, byte)[i] == byte,
        i < start || end <= i ==> filled(data, start, end, byte)[i] == data[i],
        TRIMMED == 0xab,
        DISCARDED == 0xaf,
{
}

/// The blocks that are chosen are those for which that was said, in order: each choice adds its block or nothing.
pub proof fn lemma_choices_choose_their_blocks(blocks: Seq<usize>, choices: Seq<bool>, count: nat, block: usize)
    requires
        count <= blocks.len(),
        count <= choices.len(),
    ensures
        chosen(blocks, choices, count).contains(block) <==> exists|k: int|
            0 <= k < count && #[trigger] choices[k] && blocks[k] == block,
        count > 0 && choices[count - 1] ==> chosen(blocks, choices, count) == chosen(
            blocks,
            choices,
            (count - 1) as nat,
        ).push(blocks[count - 1]),
        count > 0 && !choices[count - 1] ==> chosen(blocks, choices, count) == chosen(
            blocks,
            choices,
            (count - 1) as nat,
        ),
    decreases count,
{
    if count > 0 {
        let before = chosen(blocks, choices, (count - 1) as nat);
        let all = chosen(blocks, choices, count);
        lemma_choices_choose_their_blocks(blocks, choices, (count - 1) as nat, block);
        if all.contains(block) {
            let i = choose|i: int| 0 <= i < all.len() && all[i] == block;
            if i < before.len() {
                assert(before[i] == block);
            } else {
                assert(choices[count - 1] && blocks[count - 1] == block);
            }
        }
        if exists|k: int| 0 <= k < count && #[trigger] choices[k] && blocks[k] == block {
            let k = choose|k: int| 0 <= k < count && #[trigger] choices[k] && blocks[k] == block;
            if k < count - 1 {
                assert(before.contains(block));
                let i = choose|i: int| 0 <= i < before.len() && before[i] == block;
                assert(all[i] == block);
            } else {
                assert(all[all.len() - 1] == block);
            }
        }
    }
}

/// Each block that is chosen is lost: all of its bytes are overwritten.  A byte that is in no chosen block is kept.
pub proof fn lemma_chosen_blocks_are_lost(
    data: Seq<u8>,
    blocks: Seq<usize>,
    choices: Seq<bool>,
    block_size: int,
    count: nat,
    i: int,
)
    requires
        0 <= i < data.len(),
        count <= blocks.len(),
        count <= choices.len(),
    ensures
        discarded(data, blocks, choices, block_size, count).len() == data.len(),
        (exists|k: int|
            0 <= k < count && #[trigger] choices[k] && blocks[k] * block_size <= i < blocks[k] * block_size
                + block_size) ==> discarded(data, blocks, choices, block_size, count)[i] == 0xaf,
        !(exists|k: int|
            0 <= k < count && #[trigger] choices[k] && blocks[k] * block_size <= i < blocks[k] * block_size
                + block_size) ==> discarded(data, blocks, choices, block_size, count)[i] == data[i],
    decreases count,
{
    if count > 0 {
        lemma_chosen_blocks_are_lost(data, blocks, choices, block_size, (count - 1) as nat, i);
        let last = count - 1;
        if choices[last] && blocks[last] * block_size <= i < blocks[last] * block_size + block_size {
            assert(discarded(data, blocks, choices, block_size, count)[i] == 0xaf);
        } else if exists|k: int|
            0 <= k < count && #[trigger] choices[k] && blocks[k] * block_size <= i < blocks[k] * block_size
                + block_size {
            let k = choose|k: int|
                0 <= k < count && #[trigger] choices[k] && blocks[k] * block_size <= i < blocks[k]
                    * block_size + block_size;
            assert(k < count - 1);
        }
    }
}

/// Once blocks were discarded, none counts as written since the last flush.
pub proof fn lemma_discarding_starts_anew(device: DeviceView, choices: Seq<bool>)
    ensures
        device.discarding(choices).blocks_written.len() == 0,
        device.discarding(choices).block_size == device.block_size,
        device.discarding(choices).closed == device.closed,
        device.discarding(choices).read_only == device.read_only,
        device.discarding(choices).poisoned == device.poisoned,
{
}

} // verus!
