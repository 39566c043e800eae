use vstd::prelude::*;

use crate::channel_name::{normalize_name, valid_name_input, HubChannelName};
use crate::errors::HubError;

verus! {

/// How long a pipe-fed data source waits before its first message, when the
/// builder is not told otherwise (milliseconds).
pub const DEFAULT_DELAY_MILLIS: u64 = 100;

/// How often a pipe-fed data source emits, when the builder is not told
/// otherwise (milliseconds).
pub const DEFAULT_PERIOD_MILLIS: u64 = 1000;

/// How many dimensions a generated sample has, when the builder is not told
/// otherwise.
pub const DEFAULT_N_DIMS: usize = 3;

/// The settings of one pipe-fed data source: where to write and read, which
/// channel it serves, the shape of its samples, and its timing.
pub struct ClientPipeOptions {
    write_pipe_path: Option<String>,
    read_pipe_path: Option<String>,
    channel: HubChannelName,
    n_dims: usize,
    delay_millis: u64,
    period_millis: u64,
}

/// The option fields, as spec values.
pub open spec fn opt_view(o: Option<String>) -> Option<Seq<char>> {
    match o {
        Some(s) => Some(s@),
        None => None,
    }
}

impl ClientPipeOptions {
    pub closed spec fn spec_write_path(&self) -> Option<Seq<char>> {
        opt_view(self.write_pipe_path)
    }

    pub closed spec fn spec_read_path(&self) -> Option<Seq<char>> {
        opt_view(self.read_pipe_path)
    }

    pub closed spec fn spec_channel(&self) -> Seq<char> {
        self.channel@
    }

    pub closed spec fn spec_n_dims(&self) -> usize {
        self.n_dims
    }

    pub closed spec fn spec_delay(&self) -> u64 {
        self.delay_millis
    }

    pub closed spec fn spec_period(&self) -> u64 {
        self.period_millis
    }

    /// Assemble options outright, validating the channel name.
    pub fn new(
        write_path: Option<&str>,
        read_path: Option<&str>,
        channel: &str,
        n_dims: usize,
        delay_millis: u64,
        period_millis: u64,
    ) -> (r: Result<ClientPipeOptions, HubError>)
        ensures
            r is Ok <==> valid_name_input(channel@),
            r matches Ok(o) ==> {
                &&& o.spec_channel() == normalize_name(channel@)
                &&& o.spec_write_path() == (match write_path {
                    Some(p) => Some(p@),
                    None => None,
                })
                &&& o.spec_read_path() == (match read_path {
                    Some(p) => Some(p@),
                    None => None,
                })
                &&& o.spec_n_dims() == n_dims
                &&& o.spec_delay() == delay_millis
                &&& o.spec_period() == period_millis
            },
            r matches Err(e) ==> e == HubError::InvalidName,
    {
        let channel = HubChannelName::try_from_str(channel)?;
        Ok(
            ClientPipeOptions {
                write_pipe_path: copy_opt_path(write_path),
                read_pipe_path: copy_opt_path(read_path),
                channel,
                n_dims,
                delay_millis,
                period_millis,
            },
        )
    }

    pub fn write_path(&self) -> (r: Option<String>)
        ensures
            opt_view(r) == self.spec_write_path(),
    {
        clone_opt_string(&self.write_pipe_path)
    }

    pub fn read_path(&self) -> (r: Option<String>)
        ensures
            opt_view(r) == self.spec_read_path(),
    {
        clone_opt_string(&self.read_pipe_path)
    }

    pub fn delay(&self) -> (r: u64)
        ensures
            r == self.spec_delay(),
    {
        self.delay_millis
    }

    pub fn period(&self) -> (r: u64)
        ensures
            r == self.spec_period(),
    {
        self.period_millis
    }

    pub fn channel(&self) -> (r: HubChannelName)
        ensures
            r@ == self.spec_channel(),
    {
        self.channel.clone()
    }

    pub fn n_dims(&self) -> (r: usize)
        ensures
            r == self.spec_n_dims(),
    {
        self.n_dims
    }
}

fn copy_opt_path(p: Option<&str>) -> (r: Option<String>)
    ensures
        opt_view(r) == (match p {
            Some(s) => Some::<Seq<char>>(s@),
            None => None::<Seq<char>>,
        }),
{
    match p {
        Some(s) => Some(String::from_str(s)),
        None => None,
    }
}

fn clone_opt_string(p: &Option<String>) -> (r: Option<String>)
    ensures
        opt_view(r) == opt_view(*p),
{
    match p {
        Some(s) => Some(s.clone()),
        None => None,
    }
}

/// Gathers the settings of a pipe-fed data source step by step; `build`
/// fills the timing and shape defaults, and insists on a channel.
pub struct ClientPipeOptionsBuilder {
    write_pipe_path: Option<String>,
    read_pipe_path: Option<String>,
    channel: Option<HubChannelName>,
    n_dims: Option<usize>,
    delay_millis: Option<u64>,
    period_millis: Option<u64>,
}

impl ClientPipeOptionsBuilder {
    pub closed spec fn spec_write_path(&self) -> Option<Seq<char>> {
        opt_view(self.write_pipe_path)
    }

    pub closed spec fn spec_read_path(&self) -> Option<Seq<char>> {
        opt_view(self.read_pipe_path)
    }

    pub closed spec fn spec_channel(&self) -> Option<Seq<char>> {
        match self.channel {
            Some(c) => Some(c@),
            None => None,
        }
    }

    pub closed spec fn spec_n_dims(&self) -> Option<usize> {
        self.n_dims
    }

    pub closed spec fn spec_delay(&self) -> Option<u64> {
        self.delay_millis
    }

    pub closed spec fn spec_period(&self) -> Option<u64> {
        self.period_millis
    }

    /// A builder with nothing set.
    pub fn new() -> (r: ClientPipeOptionsBuilder)
        ensures
            r.spec_write_path() is None,
            r.spec_read_path() is None,
            r.spec_channel() is None,
            r.spec_n_dims() is None,
            r.spec_delay() is None,
            r.spec_period() is None,
    {
        ClientPipeOptionsBuilder {
            write_pipe_path: None,
            read_pipe_path: None,
            channel: None,
            n_dims: None,
            delay_millis: None,
            period_millis: None,
        }
    }

    fn clone_parts(&self) -> (r: ClientPipeOptionsBuilder)
        ensures
            r.spec_write_path() == self.spec_write_path(),
            r.spec_read_path() == self.spec_read_path(),
            r.spec_channel() == self.spec_channel(),
            r.spec_n_dims() == self.spec_n_dims(),
            r.spec_delay() == self.spec_delay(),
            r.spec_period() == self.spec_period(),
    {
        ClientPipeOptionsBuilder {
            write_pipe_path: clone_opt_string(&self.write_pipe_path),
            read_pipe_path: clone_opt_string(&self.read_pipe_path),
            channel: match &self.channel {
                Some(c) => Some(c.clone()),
                None => None,
            },
            n_dims: self.n_dims,
            delay_millis: self.delay_millis,
            period_millis: self.period_millis,
        }
    }

    /// The builder with the write path set.
    pub fn write_path(&self, path: &str) -> (r: ClientPipeOptionsBuilder)
        ensures
            r.spec_write_path() == Some(path@),
            r.spec_read_path() == self.spec_read_path(),
            r.spec_channel() == self.spec_channel(),
            r.spec_n_dims() == self.spec_n_dims(),
            r.spec_delay() == self.spec_delay(),
            r.spec_period() == self.spec_period(),
    {
        let mut new = self.clone_parts();
        new.write_pipe_path = Some(String::from_str(path));
        new
    }

    /// The builder with the read path set.
    pub fn read_path(&self, path: &str) -> (r: ClientPipeOptionsBuilder)
        ensures
            r.spec_read_path() == Some(path@),
            r.spec_write_path() == self.spec_write_path(),
            r.spec_channel() == self.spec_channel(),
            r.spec_n_dims() == self.spec_n_dims(),
            r.spec_delay() == self.spec_delay(),
            r.spec_period() == self.spec_period(),
    {
        let mut new = self.clone_parts();
        new.read_pipe_path = Some(String::from_str(path));
        new
    }

    /// The builder with the start-up delay set.
    pub fn delay(&self, delay: u64) -> (r: ClientPipeOptionsBuilder)
        ensures
            r.spec_delay() == Some(delay),
            r.spec_write_path() == self.spec_write_path(),
            r.spec_read_path() == self.spec_read_path(),
            r.spec_channel() == self.spec_channel(),
            r.spec_n_dims() == self.spec_n_dims(),
            r.spec_period() == self.spec_period(),
    {
        let mut new = self.clone_parts();
        new.delay_millis = Some(delay);
        new
    }

    /// The builder with the emission period set.
    pub fn period(&self, period: u64) -> (r: ClientPipeOptionsBuilder)
        ensures
            r.spec_period() == Some(period),
            r.spec_write_path() == self.spec_write_path(),
            r.spec_read_path() == self.spec_read_path(),
            r.spec_channel() == self.spec_channel(),
            r.spec_n_dims() == self.spec_n_dims(),
            r.spec_delay() == self.spec_delay(),
    {
        let mut new = self.clone_parts();
        new.period_millis = Some(period);
        new
    }

    /// The builder with the channel set, validating the name.
    pub fn channel(&self, channel: &str) -> (r: Result<ClientPipeOptionsBuilder, HubError>)
        ensures
            r is Ok <==> valid_name_input(channel@),
            r matches Ok(b) ==> {
                &&& b.spec_channel() == Some(normalize_name(channel@))
                &&& b.spec_write_path() == self.spec_write_path()
                &&& b.spec_read_path() == self.spec_read_path()
                &&& b.spec_n_dims() == self.spec_n_dims()
                &&& b.spec_delay() == self.spec_delay()
                &&& b.spec_period() == self.spec_period()
            },
            r matches Err(e) ==> e == HubError::InvalidName,
    {
        let name = HubChannelName::try_from_str(channel)?;
        let mut new = self.clone_parts();
        new.channel = Some(name);
        Ok(new)
    }

    /// The builder with the sample dimension count set.
    pub fn n_dims(&self, n_dims: usize) -> (r: ClientPipeOptionsBuilder)
        ensures
            r.spec_n_dims() == Some(n_dims),
            r.spec_write_path() == self.spec_write_path(),
            r.spec_read_path() == self.spec_read_path(),
            r.spec_channel() == self.spec_channel(),
            r.spec_delay() == self.spec_delay(),
            r.spec_period() == self.spec_period(),
    {
        let mut new = self.clone_parts();
        new.n_dims = Some(n_dims);
        new
    }

    /// The finished options.  Fails exactly when no channel was set; every
    /// unset timing or shape field takes its default.
    pub fn build(self) -> (r: Result<ClientPipeOptions, HubError>)
        ensures
            r is Ok <==> self.spec_channel() is Some,
            r matches Ok(o) ==> {
                &&& Some(o.spec_channel()) == self.spec_channel()
                &&& o.spec_write_path() == self.spec_write_path()
                &&& o.spec_read_path() == self.spec_read_path()
                &&& o.spec_n_dims() == (match self.spec_n_dims() {
                    Some(n) => n,
                    None => DEFAULT_N_DIMS,
                })
                &&& o.spec_delay() == (match self.spec_delay() {
                    Some(d) => d,
                    None => DEFAULT_DELAY_MILLIS,
                })
                &&& o.spec_period() == (match self.spec_period() {
                    Some(p) => p,
                    None => DEFAULT_PERIOD_MILLIS,
                })
            },
            r matches Err(e) ==> e == HubError::InvalidName,
    {
        let channel = match self.channel {
            None => {
                return Err(HubError::InvalidName);
            },
            Some(c) => c,
        };
        Ok(
            ClientPipeOptions {
                write_pipe_path: self.write_pipe_path,
                read_pipe_path: self.read_pipe_path,
                channel,
                n_dims: match self.n_dims {
                    Some(n) => n,
                    None => DEFAULT_N_DIMS,
                },
                delay_millis: match self.delay_millis {
                    Some(d) => d,
                    None => DEFAULT_DELAY_MILLIS,
                },
                period_millis: match self.period_millis {
                    Some(p) => p,
                    None => DEFAULT_PERIOD_MILLIS,
                },
            },
        )
    }
}

} // verus!
